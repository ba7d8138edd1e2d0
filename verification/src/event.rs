use vstd::prelude::*;
use vstd::string::*;
use crate::menu::select_id;
use crate::order::str_eq;

verus! {

/// A request to select the proxy `name` in the group `group`.
#[derive(Clone, Debug, PartialEq, Eq)]
pub struct SelectRequest {
    pub group: String,
    pub name: String,
}

/// The sequence holds no underscore.
pub open spec fn no_underscore(s: Seq<char>) -> bool {
    forall|i: int| 0 <= i < s.len() ==> s[i] != '_'
}

/// `event` is the identifier of the entry that selects `name` in `group`,
/// and neither of the two holds an underscore.
pub open spec fn is_select_event(event: Seq<char>, group: Seq<char>, name: Seq<char>) -> bool {
    event == select_id(group, name) && no_underscore(group) && no_underscore(name)
}

/// The number of characters before the group's name in such an identifier.
pub open spec fn prefix_len() -> int {
    13
}

proof fn lemma_select_id_shape(group: Seq<char>, name: Seq<char>)
    ensures
        select_id(group, name).len() == prefix_len() + group.len() + 1 + name.len(),
        select_id(group, name).subrange(0, prefix_len()) == "select_proxy_"@,
        select_id(group, name)[prefix_len() + group.len()] == '_',
        forall|i: int| 0 <= i < group.len() ==> select_id(group, name)[prefix_len() + i] == group[i],
        forall|i: int|
            0 <= i < name.len() ==> select_id(group, name)[prefix_len() + group.len() + 1 + i] == name[i],
{
    reveal_strlit("select_proxy_");
    reveal_strlit("_");
    assert(select_id(group, name).subrange(0, prefix_len()) =~= "select_proxy_"@);
}

/// An event names at most one group and proxy.
pub proof fn law_select_event_unique(
    event: Seq<char>,
    group1: Seq<char>,
    name1: Seq<char>,
    group2: Seq<char>,
    name2: Seq<char>,
)
    requires
        is_select_event(event, group1, name1),
        is_select_event(event, group2, name2),
    ensures
        group1 == group2,
        name1 == name2,
{
    lemma_select_id_shape(group1, name1);
    lemma_select_id_shape(group2, name2);
    if group1.len() < group2.len() {
        assert(event[prefix_len() + group1.len()] == group2[group1.len() as int]);
    } else if group2.len() < group1.len() {
        assert(event[prefix_len() + group2.len()] == group1[group2.len() as int]);
    }
    assert forall|i: int| 0 <= i < group1.len() implies group1[i] == group2[i] by {
        assert(event[prefix_len() + i] == group1[i]);
    }
    assert(group1 =~= group2);
    assert forall|i: int| 0 <= i < name1.len() implies name1[i] == name2[i] by {
        assert(event[prefix_len() + group1.len() + 1 + i] == name1[i]);
    }
    assert(name1 =~= name2);
}

fn find_underscore(s: &str, from: usize, len: usize) -> (p: usize)
    requires
        from <= len,
        len == s@.len(),
    ensures
        from <= p <= len,
        forall|i: int| from <= i < p ==> s@[i] != '_',
        p < len ==> s@[p as int] == '_',
{
    let mut p: usize = from;
    while p < len
        invariant
            from <= p <= len,
            len == s@.len(),
            forall|i: int| from <= i < p ==> s@[i] != '_',
        decreases len - p,
    {
        if s.get_char(p) == '_' {
            return p;
        }
        p = p + 1;
    }
    p
}

/// Reads an event of the menu. An event that is the identifier of a proxy's
/// entry yields the request to select that proxy; any other event yields
/// nothing.
pub fn on_system_tray_event(event: &str) -> (r: Option<SelectRequest>)
    ensures
        match r {
            Some(req) => is_select_event(event@, req.group@, req.name@),
            None => forall|group: Seq<char>, name: Seq<char>| !is_select_event(event@, group, name),
        },
        forall|group: Seq<char>, name: Seq<char>|
            is_select_event(event@, group, name) ==> r is Some && r.unwrap().group@ == group && r.unwrap().name@
                == name,
{
    let len: usize = event.unicode_len();
    if len < 13 {
        proof {
            assert forall|group: Seq<char>, name: Seq<char>| !is_select_event(event@, group, name) by {
                lemma_select_id_shape(group, name);
            }
        }
        return None;
    }
    if !str_eq(event.substring_char(0, 13), "select_proxy_") {
        proof {
            assert forall|group: Seq<char>, name: Seq<char>| !is_select_event(event@, group, name) by {
                lemma_select_id_shape(group, name);
            }
        }
        return None;
    }
    let p: usize = find_underscore(event, 13, len);
    if p >= len {
        proof {
            assert forall|group: Seq<char>, name: Seq<char>| !is_select_event(event@, group, name) by {
                lemma_select_id_shape(group, name);
                if event@ == select_id(group, name) {
                    assert(event@[prefix_len() + group.len()] == '_');
                }
            }
        }
        return None;
    }
    let q: usize = find_underscore(event, p + 1, len);
    if q < len {
        proof {
            assert forall|group: Seq<char>, name: Seq<char>| !is_select_event(event@, group, name) by {
                lemma_select_id_shape(group, name);
                if is_select_event(event@, group, name) {
                    let g = prefix_len() + group.len();
                    assert(event@[g] == '_');
                    if p < g {
                        assert(event@[prefix_len() + (p - prefix_len())] == group[p - prefix_len()]);
                    }
                    assert(p == g);
                    assert(event@[g + 1 + (q - g - 1)] == name[q - g - 1]);
                }
            }
        }
        return None;
    }
    let group = String::from_str(event.substring_char(13, p));
    let name = String::from_str(event.substring_char(p + 1, len));
    proof {
        reveal_strlit("select_proxy_");
        reveal_strlit("_");
        assert(event@ =~= select_id(group@, name@));
        assert forall|g: Seq<char>, n: Seq<char>| is_select_event(event@, g, n) implies group@ == g && name@
            == n by {
            law_select_event_unique(event@, group@, name@, g, n);
        }
    }
    Some(SelectRequest { group, name })
}

} // verus!
