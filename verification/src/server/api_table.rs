//! The registry of functions: for each name, the clients that implement it,
//! ordered by priority. A lower priority value is tried first.
use vstd::prelude::*;
use crate::server::ipc_bridge::ClientId;
use crate::str_map::StrMap;

verus! {

/// One implementation of a function: who offers it and at which priority.
#[derive(Debug, PartialEq, Eq, Hash, Clone, Copy, Structural)]
pub struct ApiInfo {
    pub client_id: ClientId,
    pub priority: u16,
}

/// Whether the implementations are ordered by ascending priority value.
pub open spec fn sorted_by_priority(s: Seq<ApiInfo>) -> bool {
    forall|i: int, j: int| 0 <= i < j < s.len() ==> #[trigger] s[i].priority <= #[trigger] s[j].priority
}

/// The position of the first implementation whose priority value is not
/// below `priority`: where a new implementation with that priority goes,
/// behind those with a lower value and in front of those with the same or a
/// higher one.
pub open spec fn lower_bound(s: Seq<ApiInfo>, priority: u16) -> int
    decreases s.len(),
{
    if s.len() == 0 {
        0
    } else if s.last().priority < priority {
        s.len() as int
    } else {
        lower_bound(s.drop_last(), priority)
    }
}

/// `s` with `info` put in its place by priority.
pub open spec fn insert_by_priority(s: Seq<ApiInfo>, info: ApiInfo) -> Seq<ApiInfo> {
    s.insert(lower_bound(s, info.priority), info)
}

/// The implementations of `name` in `m`, none if it has no entry.
pub open spec fn infos_of(m: Map<Seq<char>, Seq<ApiInfo>>, name: Seq<char>) -> Seq<ApiInfo> {
    if m.dom().contains(name) { m[name] } else { Seq::empty() }
}

/// The implementations that do not belong to `client_id`, in their order.
pub open spec fn without_client(s: Seq<ApiInfo>, client_id: ClientId) -> Seq<ApiInfo> {
    s.filter(|info: ApiInfo| info.client_id != client_id)
}

/// `m` once `client_id` is gone: its implementations are dropped, and so are
/// names that are left without any.
pub open spec fn deregistered(m: Map<Seq<char>, Seq<ApiInfo>>, client_id: ClientId) -> Map<Seq<char>, Seq<ApiInfo>> {
    Map::new(
        |k: Seq<char>| m.dom().contains(k) && without_client(m[k], client_id).len() > 0,
        |k: Seq<char>| without_client(m[k], client_id),
    )
}

/// The position of the first implementation of `client_id`; the length of
/// `s` if it has none.
pub open spec fn client_position(s: Seq<ApiInfo>, client_id: ClientId) -> int {
    if exists|j: int| 0 <= j < s.len() && s[j].client_id == client_id {
        choose|j: int| 0 <= j < s.len() && s[j].client_id == client_id
            && forall|i: int| 0 <= i < j ==> s[i].client_id != client_id
    } else {
        s.len() as int
    }
}

/// The implementation that follows the first one of `client_id`, if any.
pub open spec fn next_after(s: Seq<ApiInfo>, client_id: ClientId) -> Option<ApiInfo> {
    let j = client_position(s, client_id);
    if j + 1 < s.len() { Some(s[j + 1]) } else { None }
}

pub proof fn lemma_lower_bound(s: Seq<ApiInfo>, priority: u16, k: int)
    requires
        sorted_by_priority(s),
        0 <= k <= s.len(),
        forall|i: int| 0 <= i < k ==> #[trigger] s[i].priority < priority,
        forall|i: int| k <= i < s.len() ==> #[trigger] s[i].priority >= priority,
    ensures
        lower_bound(s, priority) == k,
    decreases s.len(),
{
    if s.len() > 0 && s.last().priority >= priority {
        lemma_lower_bound(s.drop_last(), priority, k);
    }
}

/// Putting an implementation in its place keeps the order by priority.
pub proof fn lemma_insert_keeps_sorted(s: Seq<ApiInfo>, info: ApiInfo)
    requires
        sorted_by_priority(s),
    ensures
        sorted_by_priority(insert_by_priority(s, info)),
        insert_by_priority(s, info).len() == s.len() + 1,
    decreases s.len(),
{
    let p = info.priority;
    let k = lower_bound(s, p);
    if s.len() > 0 && s.last().priority >= p {
        lemma_insert_keeps_sorted(s.drop_last(), info);
        lemma_lower_bound_props(s.drop_last(), p);
        let t = insert_by_priority(s.drop_last(), info);
        assert(insert_by_priority(s, info) =~= t.push(s.last()));
        assert forall|i: int| 0 <= i < t.len() implies #[trigger] t[i].priority <= s.last().priority by {
            if i < k { } else if i == k { } else { }
        }
    } else {
        assert(insert_by_priority(s, info) =~= s.push(info));
    }
}

/// The position that `lower_bound` gives splits the sorted sequence into the
/// implementations with a value below `priority` and the others.
pub proof fn lemma_lower_bound_props(s: Seq<ApiInfo>, priority: u16)
    requires
        sorted_by_priority(s),
    ensures
        0 <= lower_bound(s, priority) <= s.len(),
        forall|i: int| 0 <= i < lower_bound(s, priority) ==> #[trigger] s[i].priority < priority,
        forall|i: int| lower_bound(s, priority) <= i < s.len() ==> #[trigger] s[i].priority >= priority,
    decreases s.len(),
{
    if s.len() > 0 {
        if s.last().priority < priority {
            assert forall|i: int| 0 <= i < s.len() implies #[trigger] s[i].priority < priority by {
                if i < s.len() - 1 {
                    assert(s[i].priority <= s[s.len() - 1].priority);
                }
            }
        } else {
            let d = s.drop_last();
            assert(sorted_by_priority(d)) by {
                assert forall|i: int, j: int| 0 <= i < j < d.len() implies #[trigger] d[i].priority <= #[trigger] d[j].priority by {
                    assert(s[i].priority <= s[j].priority);
                }
            }
            lemma_lower_bound_props(d, priority);
            let k = lower_bound(d, priority);
            assert forall|i: int| 0 <= i < k implies #[trigger] s[i].priority < priority by {
                assert(d[i].priority < priority);
            }
            assert forall|i: int| k <= i < s.len() implies #[trigger] s[i].priority >= priority by {
                if i < s.len() - 1 {
                    assert(d[i].priority >= priority);
                }
            }
        }
    }
}

/// The sequences that the vectors of a map hold.
pub open spec fn vec_views(m: Map<Seq<char>, Vec<ApiInfo>>) -> Map<Seq<char>, Seq<ApiInfo>> {
    m.map_values(|v: Vec<ApiInfo>| v@)
}

/// The registry. Each name that it holds has at least one implementation.
pub struct ApiTable {
    name_infos: StrMap<Vec<ApiInfo>>,
}

impl ApiTable {
    pub closed spec fn wf(&self) -> bool {
        &&& self.name_infos.wf()
        &&& forall|k: Seq<char>| #[trigger] self.name_infos.view().dom().contains(k) ==> {
            &&& self.name_infos.view()[k]@.len() > 0
            &&& sorted_by_priority(self.name_infos.view()[k]@)
        }
    }

    /// For each registered name, its implementations in the order they are tried.
    pub closed spec fn view(&self) -> Map<Seq<char>, Seq<ApiInfo>> {
        vec_views(self.name_infos.view())
    }

    /// Every name of a well-formed table has implementations, ordered by priority.
    pub proof fn lemma_wf(&self)
        requires
            self.wf(),
        ensures
            forall|k: Seq<char>| #[trigger] self.view().dom().contains(k) ==> {
                &&& self.view()[k].len() > 0
                &&& sorted_by_priority(self.view()[k])
            },
    {
    }

    pub fn new() -> (table: Self)
        ensures
            table.wf(),
            table.view() == Map::<Seq<char>, Seq<ApiInfo>>::empty(),
    {
        let t = ApiTable { name_infos: StrMap::new() };
        assert(t.view() =~= Map::<Seq<char>, Seq<ApiInfo>>::empty());
        t
    }

    /// Adds an implementation of `name`, behind those whose priority value is
    /// lower and in front of those whose value is the same or higher.
    pub fn register(&mut self, name: String, info: ApiInfo)
        requires
            old(self).wf(),
        ensures
            final(self).wf(),
            final(self).view() == old(self).view().insert(
                name@,
                insert_by_priority(infos_of(old(self).view(), name@), info),
            ),
    {
        let mut infos: Vec<ApiInfo> = match self.name_infos.get(&name) {
            Some(v) => v.clone(),
            None => Vec::new(),
        };
        proof {
            assert(infos@ =~= infos_of(self.view(), name@));
        }
        let ghost s = infos@;
        let p = info.priority;
        // Binary search for the first position whose priority value is not below `p`.
        let mut lo: usize = 0;
        let mut hi: usize = infos.len();
        while lo < hi
            invariant
                infos@ == s,
                sorted_by_priority(s),
                0 <= lo <= hi <= s.len(),
                forall|i: int| 0 <= i < lo ==> #[trigger] s[i].priority < p,
                forall|i: int| hi <= i < s.len() ==> #[trigger] s[i].priority >= p,
            decreases hi - lo,
        {
            let mid = lo + (hi - lo) / 2;
            if infos[mid].priority < p {
                proof {
                    assert forall|i: int| 0 <= i < mid + 1 implies #[trigger] s[i].priority < p by {
                        if i < mid { assert(s[i].priority <= s[mid as int].priority); }
                    }
                }
                lo = mid + 1;
            } else {
                proof {
                    assert forall|i: int| mid <= i < s.len() implies #[trigger] s[i].priority >= p by {
                        if i > mid { assert(s[mid as int].priority <= s[i].priority); }
                    }
                }
                hi = mid;
            }
        }
        proof {
            lemma_lower_bound(s, p, lo as int);
            lemma_insert_keeps_sorted(s, info);
        }
        infos.insert(lo, info);
        let ghost new_infos = infos@;
        self.name_infos.insert(name, infos);
        proof {
            assert(new_infos == insert_by_priority(s, info));
            assert(self.view() =~= old(self).view().insert(name@, insert_by_priority(s, info)));
        }
    }

    /// The implementation of `name` that is tried first.
    pub fn get_first(&self, name: &String) -> (first: Option<&ApiInfo>)
        requires
            self.wf(),
        ensures
            first is None <==> !self.view().dom().contains(name@),
            first matches Some(info) ==> *info == self.view()[name@][0],
    {
        match self.name_infos.get(name) {
            Some(infos) => Some(&infos[0]),
            None => None,
        }
    }

    /// The implementations of `name`, in the order of trial; none if it has
    /// no entry.
    pub fn implementations(&self, name: &String) -> (infos: Vec<ApiInfo>)
        requires
            self.wf(),
        ensures
            infos@ == infos_of(self.view(), name@),
    {
        match self.name_infos.get(name) {
            Some(infos) => infos.clone(),
            None => Vec::new(),
        }
    }

    /// Whether `info` is still one of the implementations of `name`.
    pub fn offers(&self, name: &String, info: &ApiInfo) -> (res: bool)
        requires
            self.wf(),
        ensures
            res == infos_of(self.view(), name@).contains(*info),
    {
        match self.name_infos.get(name) {
            Some(infos) => {
                proof {
                    assert(self.view().dom().contains(name@));
                    assert(infos_of(self.view(), name@) == infos@);
                }
                let mut i: usize = 0;
                while i < infos.len()
                    invariant
                        i <= infos@.len(),
                        infos_of(self.view(), name@) == infos@,
                        forall|j: int| 0 <= j < i ==> infos@[j] != *info,
                    decreases infos@.len() - i,
                {
                    if infos[i] == *info {
                        proof {
                            assert(infos@[i as int] == *info);
                            assert(infos_of(self.view(), name@).contains(*info));
                        }
                        return true;
                    }
                    i = i + 1;
                }
                false
            },
            None => false,
        }
    }

    /// The implementation of `name` that follows the first one of `client_id`.
    pub fn get_next(&self, name: &String, client_id: &ClientId) -> (next: Option<&ApiInfo>)
        requires
            self.wf(),
        ensures
            !self.view().dom().contains(name@) ==> next is None,
            self.view().dom().contains(name@) ==> match next_after(self.view()[name@], *client_id) {
                Some(i) => next matches Some(n) && *n == i,
                None => next is None,
            },
    {
        match self.name_infos.get(name) {
            Some(infos) => {
                let ghost s = infos@;
                let mut j: usize = 0;
                while j < infos.len() && infos[j].client_id != *client_id
                    invariant
                        infos@ == s,
                        j <= s.len(),
                        forall|i: int| 0 <= i < j ==> #[trigger] s[i].client_id != *client_id,
                    decreases s.len() - j,
                {
                    j = j + 1;
                }
                proof {
                    if j < s.len() {
                        assert(s[j as int].client_id == *client_id);
                        let c = choose|jj: int| 0 <= jj < s.len() && s[jj].client_id == *client_id
                            && forall|i: int| 0 <= i < jj ==> s[i].client_id != *client_id;
                        assert(c == j);
                    }
                    assert(client_position(s, *client_id) == j);
                }
                if infos.len() - j > 1 {
                    Some(&infos[j + 1])
                } else {
                    None
                }
            },
            None => None,
        }
    }

    /// Drops every implementation of `client_id`, and the names that are left
    /// without any.
    pub fn deregister_by_client(&mut self, client_id: &ClientId)
        requires
            old(self).wf(),
        ensures
            final(self).wf(),
            final(self).view() == deregistered(old(self).view(), *client_id),
    {
        let ghost old_view = self.view();
        let ghost ks = self.name_infos.keys();
        proof { self.name_infos.lemma_keys(); }
        let mut new_map: StrMap<Vec<ApiInfo>> = StrMap::new();
        let n = self.name_infos.len();
        let mut i: usize = 0;
        while i < n
            invariant
                n == ks.len(),
                i <= n,
                self.wf(),
                self.view() == old_view,
                ks == self.name_infos.keys(),
                ks.no_duplicates(),
                forall|k: Seq<char>| #[trigger] self.name_infos.view().dom().contains(k) <==> ks.contains(k),
                forall|j: int| 0 <= j < ks.len() ==> #[trigger] self.name_infos.view()[ks[j]] == self.name_infos.value_spec(j),
                new_map.wf(),
                forall|k: Seq<char>| #[trigger] new_map.view().dom().contains(k) ==> {
                    &&& new_map.view()[k]@.len() > 0
                    &&& sorted_by_priority(new_map.view()[k]@)
                },
                vec_views(new_map.view()) =~= Map::new(
                    |k: Seq<char>| ks.take(i as int).contains(k) && old_view.dom().contains(k)
                        && without_client(old_view[k], *client_id).len() > 0,
                    |k: Seq<char>| without_client(old_view[k], *client_id),
                ),
            decreases n - i,
        {
            let name = self.name_infos.key_at(i);
            let infos = self.name_infos.value_at(i);
            proof {
                assert(self.name_infos.view().dom().contains(ks[i as int]));
                assert(old_view[ks[i as int]] == infos@);
            }
            let filtered = retain_other_clients(infos, client_id);
            let ghost fv = filtered@;
            let ghost prev = new_map.view();
            if filtered.len() > 0 {
                new_map.insert(name.clone(), filtered);
            }
            proof {
                let nk = ks[i as int];
                assert forall|k: Seq<char>| #[trigger] ks.take(i + 1).contains(k) <==> (ks.take(i as int).contains(k) || k == nk) by {
                    if ks.take(i + 1).contains(k) {
                        let j = choose|j: int| 0 <= j < i + 1 && #[trigger] ks.take(i + 1)[j] == k;
                        if j < i { assert(ks.take(i as int)[j] == k); }
                    }
                    if ks.take(i as int).contains(k) {
                        let j = choose|j: int| 0 <= j < i && #[trigger] ks.take(i as int)[j] == k;
                        assert(ks.take(i + 1)[j] == k);
                    }
                    if k == nk { assert(ks.take(i + 1)[i as int] == k); }
                }
                assert(!ks.take(i as int).contains(nk)) by {
                    if ks.take(i as int).contains(nk) {
                        let j = choose|j: int| 0 <= j < i && #[trigger] ks.take(i as int)[j] == nk;
                        assert(ks[j] == ks[i as int]);
                    }
                }
                let target = Map::new(
                    |k: Seq<char>| ks.take(i + 1).contains(k) && old_view.dom().contains(k)
                        && without_client(old_view[k], *client_id).len() > 0,
                    |k: Seq<char>| without_client(old_view[k], *client_id),
                );
                let cur = vec_views(new_map.view());
                let before = Map::new(
                    |k: Seq<char>| ks.take(i as int).contains(k) && old_view.dom().contains(k)
                        && without_client(old_view[k], *client_id).len() > 0,
                    |k: Seq<char>| without_client(old_view[k], *client_id),
                );
                assert(vec_views(prev) == before);
                assert(old_view.dom().contains(nk));
                assert(without_client(old_view[nk], *client_id) == fv);
                assert(name@ == nk);
                assert forall|k: Seq<char>| #![auto] cur.dom().contains(k) <==> target.dom().contains(k) by {
                    if k == nk {
                    } else {
                        assert(cur.dom().contains(k) == prev.dom().contains(k));
                        assert(before.dom().contains(k) == target.dom().contains(k));
                    }
                }
                assert forall|k: Seq<char>| #![auto] cur.dom().contains(k) implies cur[k] == target[k] by {
                    if k == nk {
                        assert(cur[k] == fv);
                    } else {
                        assert(prev.dom().contains(k));
                        assert(cur[k] == prev[k]@);
                        assert(before.dom().contains(k));
                        assert(before[k] == target[k]);
                    }
                }
                assert(cur =~= target);
            }
            i = i + 1;
        }
        proof {
            assert(ks.take(n as int) =~= ks);
            assert(vec_views(new_map.view()) =~= deregistered(old_view, *client_id));
        }
        self.name_infos = new_map;
    }
}

/// The implementations in `infos` that do not belong to `client_id`.
fn retain_other_clients(infos: &Vec<ApiInfo>, client_id: &ClientId) -> (res: Vec<ApiInfo>)
    requires
        sorted_by_priority(infos@),
    ensures
        res@ == without_client(infos@, *client_id),
        sorted_by_priority(res@),
{
    let ghost s = infos@;
    let mut res: Vec<ApiInfo> = Vec::new();
    let mut j: usize = 0;
    while j < infos.len()
        invariant
            infos@ == s,
            sorted_by_priority(s),
            j <= s.len(),
            res@ == without_client(s.take(j as int), *client_id),
            sorted_by_priority(res@),
            forall|a: int, b: int| 0 <= a < res@.len() && j <= b < s.len() ==> #[trigger] res@[a].priority <= #[trigger] s[b].priority,
        decreases s.len() - j,
    {
        let info = infos[j];
        if info.client_id != *client_id {
            res.push(info);
        }
        proof {
            reveal(Seq::filter);
            assert(s.take(j + 1).drop_last() =~= s.take(j as int));
            assert(s.take(j + 1).last() == s[j as int]);
            assert(res@ == without_client(s.take(j + 1), *client_id));
            assert forall|a: int, b: int| 0 <= a < res@.len() && j + 1 <= b < s.len() implies #[trigger] res@[a].priority <= #[trigger] s[b].priority by {
                if a < res@.len() - 1 || info.client_id == *client_id {
                } else {
                    assert(s[j as int].priority <= s[b].priority);
                }
            }
        }
        j = j + 1;
    }
    proof { assert(s.take(s.len() as int) =~= s); }
    res
}

} // verus!
