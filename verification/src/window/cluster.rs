//! Implicit clusters: the connected components of the graph whose edges join
//! windows with touching edges. Which windows touch is decided on their
//! geometry; this module takes those connections and groups the windows.
use vstd::prelude::*;

use crate::window::node::WindowId;

verus! {

/// Identifier of a cluster: its position, from 1, among the clusters.
#[derive(Clone, Copy, Debug, PartialEq, Eq, Structural, Hash)]
pub struct ClusterId(pub u64);

impl ClusterId {
    pub fn new(value: u64) -> (id: Self)
        ensures
            id.0 == value,
    {
        ClusterId(value)
    }
}

/// `a` and `b` are joined by an edge, in either direction.
pub open spec fn adjacent(edges: Seq<(WindowId, WindowId)>, a: WindowId, b: WindowId) -> bool {
    exists|i: int| 0 <= i < edges.len() && (#[trigger] edges[i] == (a, b) || edges[i] == (b, a))
}

/// No element occurs twice in the whole of `comps`.
pub open spec fn all_distinct(comps: Seq<Seq<WindowId>>) -> bool {
    forall|c1: int, m1: int, c2: int, m2: int|
        0 <= c1 < comps.len() && 0 <= m1 < comps[c1].len() && 0 <= c2 < comps.len() && 0 <= m2
            < comps[c2].len() && (c1 != c2 || m1 != m2) ==> #[trigger] comps[c1][m1]
            != #[trigger] comps[c2][m2]
}

/// Member `m` of `s` is adjacent to a member at a position in `lo..m`.
pub open spec fn linked_from(edges: Seq<(WindowId, WindowId)>, s: Seq<WindowId>, lo: int, m: int) -> bool {
    exists|m2: int| lo <= m2 < m && adjacent(edges, #[trigger] s[m2], s[m])
}

/// Position `k` holds the first occurrence of `x` in `ids`.
pub open spec fn first_occurrence(ids: Seq<WindowId>, k: int, x: WindowId) -> bool {
    &&& ids[k] == x
    &&& forall|k3: int| 0 <= k3 < k ==> ids[k3] != x
}

/// `x` is in one of the first `c` components.
pub open spec fn in_earlier(comps: Seq<Seq<WindowId>>, c: int, x: WindowId) -> bool {
    exists|c2: int| 0 <= c2 < c && #[trigger] comps[c2].contains(x)
}

/// `comps` is the list of connected components of the windows `ids`:
/// - every window is in some component (`in_earlier` of all of them), and only windows are;
/// - no window occurs twice, and no component is empty;
/// - a component holds every window adjacent to one of its members;
/// - every member after the first is adjacent to an earlier member;
/// - components come in the order of their first window in `ids`.
pub open spec fn is_component_list(
    edges: Seq<(WindowId, WindowId)>,
    ids: Seq<WindowId>,
    comps: Seq<Seq<WindowId>>,
) -> bool {
    &&& forall|k: int| 0 <= k < ids.len() ==> #[trigger] in_earlier(comps, comps.len() as int, ids[k])
    &&& forall|c: int, m: int| 0 <= c < comps.len() && 0 <= m < comps[c].len() ==> ids.contains(#[trigger] comps[c][m])
    &&& all_distinct(comps)
    &&& forall|c: int| 0 <= c < comps.len() ==> #[trigger] comps[c].len() > 0
    &&& forall|c: int, m: int, k: int|
        0 <= c < comps.len() && 0 <= m < comps[c].len() && 0 <= k < ids.len() && adjacent(
            edges,
            #[trigger] comps[c][m],
            #[trigger] ids[k],
        ) ==> comps[c].contains(ids[k])
    &&& forall|c: int, m: int|
        0 <= c < comps.len() && 0 < m < comps[c].len() ==> #[trigger] linked_from(edges, comps[c], 0, m)
    &&& forall|c: int, k: int|
        0 <= c < comps.len() && 0 <= k < ids.len() && #[trigger] first_occurrence(ids, k, comps[c][0])
            ==> forall|k2: int| #![trigger ids[k2]] 0 <= k2 < k ==> in_earlier(comps, c, ids[k2])
}

/// The windows of `ids` not yet in `visited`.
pub open spec fn unvisited(ids: Seq<WindowId>, visited: Seq<WindowId>) -> Set<WindowId> {
    ids.to_set().filter(|x: WindowId| !visited.contains(x))
}

pub open spec fn vec_views(v: Seq<Vec<WindowId>>) -> Seq<Seq<WindowId>> {
    v.map_values(|c: Vec<WindowId>| c@)
}

/// The visit order of a depth-first walk from `id` that continues `vis`, the
/// windows visited so far in the order they were reached: an unvisited `id` is
/// appended, and then a walk starts from each window of `ids` joined to it, in
/// the order of `ids`. `fuel` bounds the depth of the walk; the number of
/// windows not yet visited is always enough.
pub open spec fn spec_walk(
    edges: Seq<(WindowId, WindowId)>,
    ids: Seq<WindowId>,
    fuel: nat,
    id: WindowId,
    vis: Seq<WindowId>,
) -> Seq<WindowId>
    decreases fuel, 0int, 0int,
{
    if fuel == 0 || vis.contains(id) {
        vis
    } else {
        spec_walk_from(edges, ids, (fuel - 1) as nat, id, 0, vis.push(id))
    }
}

/// The walks from the windows of `ids`, from position `k` on, that are joined
/// to `id`, one after the other.
pub open spec fn spec_walk_from(
    edges: Seq<(WindowId, WindowId)>,
    ids: Seq<WindowId>,
    fuel: nat,
    id: WindowId,
    k: int,
    vis: Seq<WindowId>,
) -> Seq<WindowId>
    decreases fuel, 1int, ids.len() - k,
{
    if k < 0 || k >= ids.len() {
        vis
    } else {
        let vis2 = if adjacent(edges, id, ids[k]) {
            spec_walk(edges, ids, fuel, ids[k], vis)
        } else {
            vis
        };
        spec_walk_from(edges, ids, fuel, id, k + 1, vis2)
    }
}

/// The clusters that start at the windows of `ids` from position `k` on, when
/// the windows `vis` are already taken: each window not yet visited starts a
/// cluster, which holds the windows its walk reaches, in the order reached.
pub open spec fn spec_components_from(
    edges: Seq<(WindowId, WindowId)>,
    ids: Seq<WindowId>,
    k: int,
    vis: Seq<WindowId>,
) -> Seq<Seq<WindowId>>
    decreases ids.len() - k,
{
    if k < 0 || k >= ids.len() {
        Seq::empty()
    } else if vis.contains(ids[k]) {
        spec_components_from(edges, ids, k + 1, vis)
    } else {
        let v2 = spec_walk(edges, ids, unvisited(ids, vis).len(), ids[k], vis);
        seq![v2.skip(vis.len() as int)] + spec_components_from(edges, ids, k + 1, v2)
    }
}

/// The clusters of the windows `ids`, in the order of their first windows,
/// each in the order of a depth-first walk.
pub open spec fn spec_components(edges: Seq<(WindowId, WindowId)>, ids: Seq<WindowId>) -> Seq<Seq<WindowId>> {
    spec_components_from(edges, ids, 0, Seq::empty())
}

/// Clusters numbered from 1 in order.
pub open spec fn numbered(comps: Seq<Seq<WindowId>>) -> Seq<(ClusterId, Seq<WindowId>)> {
    Seq::new(comps.len(), |i: int| (ClusterId((i + 1) as u64), comps[i]))
}

pub open spec fn cluster_views(v: Seq<(ClusterId, Vec<WindowId>)>) -> Seq<(ClusterId, Seq<WindowId>)> {
    v.map_values(|c: (ClusterId, Vec<WindowId>)| (c.0, c.1@))
}

proof fn lemma_cluster_views(v: Seq<(ClusterId, Vec<WindowId>)>)
    ensures
        cluster_views(v).len() == v.len(),
        forall|i: int| 0 <= i < v.len() ==> #[trigger] cluster_views(v)[i] == (v[i].0, v[i].1@),
{
}

proof fn lemma_numbered(comps: Seq<Seq<WindowId>>)
    ensures
        numbered(comps).len() == comps.len(),
        forall|i: int| 0 <= i < comps.len() ==> #[trigger] numbered(comps)[i] == (ClusterId((i + 1) as u64), comps[i]),
{
}

/// Cluster `i` is the first of `comps` that holds `id`.
pub open spec fn first_holding(comps: Seq<Seq<WindowId>>, id: WindowId, i: int) -> bool {
    &&& 0 <= i < comps.len()
    &&& comps[i].contains(id)
    &&& forall|j: int| 0 <= j < i ==> !(#[trigger] comps[j]).contains(id)
}

/// Which windows touch which: an edge list over window identifiers.
#[derive(Clone, Debug, PartialEq, Eq)]
pub struct ClusterGraph {
    edges: Vec<(WindowId, WindowId)>,
}

impl View for ClusterGraph {
    type V = Seq<(WindowId, WindowId)>;

    closed spec fn view(&self) -> Seq<(WindowId, WindowId)> {
        self.edges@
    }
}

fn contains_id(v: &Vec<WindowId>, x: WindowId) -> (r: bool)
    ensures
        r == v@.contains(x),
{
    let mut i: usize = 0;
    while i < v.len()
        invariant
            0 <= i <= v.len(),
            forall|k: int| 0 <= k < i ==> v@[k] != x,
        decreases v.len() - i,
    {
        if v[i] == x {
            return true;
        }
        i = i + 1;
    }
    false
}

proof fn lemma_unvisited_shrinks(
    ids: Seq<WindowId>,
    before: Seq<WindowId>,
    after: Seq<WindowId>,
    id: WindowId,
)
    requires
        ids.contains(id),
        !before.contains(id),
        after.contains(id),
        forall|x: WindowId| before.contains(x) ==> after.contains(x),
    ensures
        unvisited(ids, after).len() < unvisited(ids, before).len(),
        unvisited(ids, after).finite(),
{
    let sb = unvisited(ids, before);
    let sa = unvisited(ids, after);
    vstd::seq_lib::seq_to_set_is_finite(ids);
    ids.to_set().lemma_len_filter(|x: WindowId| !before.contains(x));
    assert(sb.contains(id));
    assert(sa.subset_of(sb.remove(id)));
    vstd::set_lib::lemma_len_subset(sa, sb.remove(id));
}

impl ClusterGraph {
    /// The graph with exactly these edges.
    pub fn from_connections(edges: Vec<(WindowId, WindowId)>) -> (g: Self)
        ensures
            g@ == edges@,
    {
        ClusterGraph { edges }
    }

    /// Whether an edge joins `left` and `right`, in either direction.
    pub fn connected(&self, left: WindowId, right: WindowId) -> (r: bool)
        ensures
            r == adjacent(self@, left, right),
    {
        let mut i: usize = 0;
        while i < self.edges.len()
            invariant
                0 <= i <= self.edges.len(),
                forall|k: int|
                    0 <= k < i ==> !(#[trigger] self.edges@[k] == (left, right) || self.edges@[k] == (
                        right,
                        left,
                    )),
            decreases self.edges.len() - i,
        {
            let (a, b) = self.edges[i];
            if (a == left && b == right) || (a == right && b == left) {
                assert(self.edges@[i as int] == (left, right) || self.edges@[i as int] == (right, left));
                return true;
            }
            i = i + 1;
        }
        false
    }

    /// Depth-first walk from `id` over windows not yet visited: marks them
    /// visited and appends them to `out` in the order they are reached.
    fn collect_component(
        &self,
        id: WindowId,
        ids: &[WindowId],
        visited: &mut Vec<WindowId>,
        out: &mut Vec<WindowId>,
        Ghost(budget): Ghost<nat>,
    )
        requires
            unvisited(ids@, old(visited)@).len() <= budget,
            unvisited(ids@, old(visited)@).finite(),
            ids@.contains(id),
            forall|x: WindowId| old(visited)@.contains(x) ==> ids@.contains(x),
            forall|m: int| 0 <= m < old(out)@.len() ==> old(visited)@.contains(#[trigger] old(out)@[m]),
            old(out)@.no_duplicates(),
        ensures
            forall|x: WindowId| old(visited)@.contains(x) ==> final(visited)@.contains(x),
            forall|x: WindowId| final(visited)@.contains(x) ==> ids@.contains(x),
            final(visited)@.contains(id),
            final(out)@.len() >= old(out)@.len(),
            final(out)@.subrange(0, old(out)@.len() as int) == old(out)@,
            final(out)@.no_duplicates(),
            forall|m: int| 0 <= m < final(out)@.len() ==> final(visited)@.contains(#[trigger] final(out)@[m]),
            forall|m: int|
                old(out)@.len() <= m < final(out)@.len() ==> !old(visited)@.contains(#[trigger] final(out)@[m]),
            forall|x: WindowId|
                final(visited)@.contains(x) && !old(visited)@.contains(x) ==> final(out)@.contains(x),
            forall|x: WindowId, k: int|
                final(visited)@.contains(x) && !old(visited)@.contains(x) && 0 <= k < ids@.len() && #[trigger] adjacent(self@, x, ids@[k]) ==> final(visited)@.contains(ids@[k]),
            old(visited)@.contains(id) ==> final(out)@ == old(out)@,
            !old(visited)@.contains(id) ==> final(out)@.len() > old(out)@.len() && final(out)@[old(out)@.len() as int] == id,
            forall|m: int|
                old(out)@.len() < m < final(out)@.len() ==> #[trigger] linked_from(
                    self@,
                    final(out)@,
                    old(out)@.len() as int,
                    m,
                ),
            final(visited)@ == spec_walk(self@, ids@, budget, id, old(visited)@),
            final(visited)@.len() >= old(visited)@.len(),
            final(visited)@.subrange(0, old(visited)@.len() as int) == old(visited)@,
            final(out)@ == old(out)@ + final(visited)@.skip(old(visited)@.len() as int),
        decreases budget,
    {
        if contains_id(visited, id) {
            assert(out@.subrange(0, out@.len() as int) =~= out@);
            assert(visited@.subrange(0, visited@.len() as int) =~= visited@);
            assert(out@ + visited@.skip(visited@.len() as int) =~= out@);
            return;
        }
        let ghost v0 = visited@;
        let ghost o0 = out@;
        visited.push(id);
        out.push(id);
        proof {
            assert(visited@ == v0.push(id));
            assert(out@ == o0.push(id));
            assert forall|x: WindowId| v0.contains(x) implies visited@.contains(x) by {
                let i = choose|i: int| 0 <= i < v0.len() && v0[i] == x;
                assert(visited@[i] == v0[i]);
            }
            assert(visited@[v0.len() as int] == id);
            assert forall|x: WindowId| visited@.contains(x) implies ids@.contains(x) by {
                let i = choose|i: int| 0 <= i < visited@.len() && visited@[i] == x;
                if i < v0.len() {
                    assert(v0[i] == x);
                }
            }
            assert forall|m: int| 0 <= m < out@.len() implies visited@.contains(#[trigger] out@[m]) by {
                if m < o0.len() {
                    assert(out@[m] == o0[m]);
                    assert(v0.contains(o0[m]));
                } else {
                    assert(out@[m] == id);
                }
            }
            assert forall|m: int| o0.len() <= m < out@.len() implies !v0.contains(#[trigger] out@[m]) by {
                assert(out@[m] == id);
            }
            assert forall|x: WindowId| visited@.contains(x) && !v0.contains(x) implies out@.contains(x) by {
                let i = choose|i: int| 0 <= i < visited@.len() && visited@[i] == x;
                if i < v0.len() {
                    assert(v0[i] == x);
                }
                assert(x == id);
                assert(out@[o0.len() as int] == id);
            }
            assert(out@.no_duplicates()) by {
                assert forall|i: int, j: int| 0 <= i < out@.len() && 0 <= j < out@.len() && i != j implies out@[i] != out@[j] by {
                    if i < o0.len() && j < o0.len() {
                        assert(out@[i] == o0[i] && out@[j] == o0[j]);
                    } else if i < o0.len() {
                        assert(out@[i] == o0[i]);
                        assert(v0.contains(o0[i]));
                    } else if j < o0.len() {
                        assert(out@[j] == o0[j]);
                        assert(v0.contains(o0[j]));
                    }
                }
            }
            assert(out@.subrange(0, o0.len() as int) =~= o0);
            lemma_unvisited_shrinks(ids@, v0, visited@, id);
            assert(visited@.subrange(0, v0.len() as int) =~= v0);
            assert(out@ =~= o0 + visited@.skip(v0.len() as int));
        }
        let mut k: usize = 0;
        while k < ids.len()
            invariant
                0 <= k <= ids@.len(),
                unvisited(ids@, v0).len() <= budget,
                unvisited(ids@, v0).finite(),
                ids@.contains(id),
                !v0.contains(id),
                forall|x: WindowId| v0.contains(x) ==> visited@.contains(x),
                forall|x: WindowId| visited@.contains(x) ==> ids@.contains(x),
                visited@.contains(id),
                out@.len() > o0.len(),
                out@.subrange(0, o0.len() as int) == o0,
                out@[o0.len() as int] == id,
                out@.no_duplicates(),
                forall|m: int| 0 <= m < out@.len() ==> visited@.contains(#[trigger] out@[m]),
                forall|m: int| o0.len() <= m < out@.len() ==> !v0.contains(#[trigger] out@[m]),
                forall|x: WindowId| visited@.contains(x) && !v0.contains(x) ==> out@.contains(x),
                forall|x: WindowId, k2: int|
                    visited@.contains(x) && !v0.contains(x) && x != id && 0 <= k2 < ids@.len() && #[trigger] adjacent(self@, x, ids@[k2]) ==> visited@.contains(ids@[k2]),
                forall|k2: int|
                    0 <= k2 < k && adjacent(self@, id, #[trigger] ids@[k2]) ==> visited@.contains(
                        ids@[k2],
                    ),
                forall|m: int|
                    o0.len() < m < out@.len() ==> #[trigger] linked_from(self@, out@, o0.len() as int, m),
                budget > 0,
                spec_walk_from(self@, ids@, (budget - 1) as nat, id, k as int, visited@) == spec_walk(
                    self@,
                    ids@,
                    budget,
                    id,
                    v0,
                ),
                visited@.len() > v0.len(),
                visited@.subrange(0, v0.len() as int) == v0,
                out@ == o0 + visited@.skip(v0.len() as int),
            decreases ids@.len() - k,
        {
            let next = ids[k];
            if self.connected(id, next) {
                let ghost v1 = visited@;
                let ghost o1 = out@;
                proof {
                    lemma_unvisited_shrinks(ids@, v0, v1, id);
                }
                self.collect_component(next, ids, visited, out, Ghost((budget - 1) as nat));
                proof {
                    assert(visited@.subrange(0, v0.len() as int) =~= v0) by {
                        assert(visited@.subrange(0, v1.len() as int) == v1);
                        assert forall|i: int| 0 <= i < v0.len() implies visited@[i] == v0[i] by {
                            assert(visited@[i] == visited@.subrange(0, v1.len() as int)[i]);
                            assert(v1[i] == v1.subrange(0, v0.len() as int)[i]);
                        }
                    }
                    assert(out@ =~= o0 + visited@.skip(v0.len() as int)) by {
                        assert(visited@.subrange(0, v1.len() as int) == v1);
                        assert forall|i: int| 0 <= i < v1.len() implies visited@[i] == v1[i] by {
                            assert(visited@[i] == visited@.subrange(0, v1.len() as int)[i]);
                        }
                    }
                    assert forall|m: int|
                        o0.len() < m < out@.len() implies #[trigger] linked_from(self@, out@, o0.len() as int, m) by {
                        if m < o1.len() {
                            assert(out@[m] == o1[m]);
                            assert(linked_from(self@, o1, o0.len() as int, m));
                            let m2 = choose|m2: int| o0.len() <= m2 < m && adjacent(self@, #[trigger] o1[m2], o1[m]);
                            assert(out@[m2] == o1[m2]);
                        } else if m == o1.len() {
                            assert(out@[o0.len() as int] == o1[o0.len() as int]);
                            assert(adjacent(self@, out@[o0.len() as int], out@[m]));
                        } else {
                            assert(linked_from(self@, out@, o1.len() as int, m));
                            let m2 = choose|m2: int| o1.len() <= m2 < m && adjacent(self@, #[trigger] out@[m2], out@[m]);
                        }
                    }
                    assert forall|m: int| o0.len() <= m < out@.len() implies !v0.contains(#[trigger] out@[m]) by {
                        if m < o1.len() {
                            assert(out@[m] == o1[m]);
                        }
                    }
                    assert(out@.subrange(0, o0.len() as int) =~= o0) by {
                        assert(out@.subrange(0, o1.len() as int) == o1);
                    }
                    assert(out@[o0.len() as int] == o1[o0.len() as int]);
                    assert forall|x: WindowId| visited@.contains(x) && !v0.contains(x) implies out@.contains(x) by {
                        if v1.contains(x) {
                            let m = choose|m: int| 0 <= m < o1.len() && o1[m] == x;
                            assert(out@[m] == o1[m]);
                        }
                    }
                }
            }
            k = k + 1;
        }
        proof {
            assert(visited@.subrange(0, v0.len() as int) == v0);
            assert forall|x: WindowId, k2: int|
                visited@.contains(x) && !old(visited)@.contains(x) && 0 <= k2 < ids@.len() && #[trigger] adjacent(self@, x, ids@[k2]) implies visited@.contains(ids@[k2]) by {
                if x == id {
                } else {
                }
            }
        }
    }

    /// The clusters of the windows `ids` (in window order), each as the list
    /// of its windows in the order a depth-first walk reaches them.
    pub fn components(&self, ids: &[WindowId]) -> (r: Vec<Vec<WindowId>>)
        ensures
            vec_views(r@) == spec_components(self@, ids@),
            is_component_list(self@, ids@, vec_views(r@)),
    {
        let mut visited: Vec<WindowId> = Vec::new();
        let mut comps: Vec<Vec<WindowId>> = Vec::new();
        let mut k: usize = 0;
        proof {
            assert(vec_views(comps@) =~= Seq::<Seq<WindowId>>::empty());
        }
        while k < ids.len()
            invariant
                comps_invariant(self@, ids@, k as int, visited@, vec_views(comps@)),
                vec_views(comps@) + spec_components_from(self@, ids@, k as int, visited@)
                    == spec_components(self@, ids@),
            decreases ids@.len() - k,
        {
            let id = ids[k];
            if !contains_id(&visited, id) {
                let ghost v0 = visited@;
                let ghost cs0 = vec_views(comps@);
                let mut out: Vec<WindowId> = Vec::new();
                proof {
                    lemma_invariant_visited_in_ids(self@, ids@, k as int, v0, cs0);
                    vstd::seq_lib::seq_to_set_is_finite(ids@);
                    ids@.to_set().lemma_len_filter(|x: WindowId| !v0.contains(x));
                }
                self.collect_component(
                    id,
                    ids,
                    &mut visited,
                    &mut out,
                    Ghost(unvisited(ids@, v0).len()),
                );
                proof {
                    assert(out@.subrange(0, 0) =~= Seq::<WindowId>::empty());
                    lemma_push_component(self@, ids@, k as int, v0, cs0, visited@, out@);
                }
                let ghost o = out@;
                comps.push(out);
                proof {
                    assert(vec_views(comps@) =~= cs0.push(o));
                    assert(o =~= visited@.skip(v0.len() as int));
                    assert(cs0.push(o) + spec_components_from(self@, ids@, k + 1, visited@) =~= cs0
                        + (seq![o] + spec_components_from(self@, ids@, k + 1, visited@)));
                }
            } else {
                proof {
                    lemma_skip_visited(self@, ids@, k as int, visited@, vec_views(comps@));
                }
            }
            k = k + 1;
        }
        proof {
            lemma_invariant_complete(self@, ids@, visited@, vec_views(comps@));
            assert(vec_views(comps@) + Seq::<Seq<WindowId>>::empty() =~= vec_views(comps@));
        }
        comps
    }

    /// The clusters of the windows `ids`, numbered from 1 in the order of
    /// their first windows, each with its windows in the order reached.
    pub fn clusters(&self, ids: &[WindowId]) -> (r: Vec<(ClusterId, Vec<WindowId>)>)
        ensures
            cluster_views(r@) == numbered(spec_components(self@, ids@)),
    {
        let mut comps = self.components(ids);
        let ghost all = vec_views(comps@);
        let n = comps.len();
        let mut out: Vec<(ClusterId, Vec<WindowId>)> = Vec::new();
        let mut i: usize = 0;
        proof {
            assert(all.skip(0) =~= all);
            assert(cluster_views(out@) =~= numbered(all).take(0));
        }
        while i < n
            invariant
                n == all.len(),
                0 <= i <= n,
                vec_views(comps@) == all.skip(i as int),
                cluster_views(out@) == numbered(all).take(i as int),
                all == spec_components(self@, ids@),
            decreases n - i,
        {
            let ghost before = comps@;
            assert(vec_views(before).len() == before.len());
            let c = comps.remove(0);
            proof {
                assert(c@ == vec_views(before)[0]);
                assert(vec_views(comps@) =~= all.skip(i + 1)) by {
                    assert(comps@ == before.remove(0));
                    assert forall|j: int| 0 <= j < comps@.len() implies vec_views(comps@)[j] == all.skip(
                        i + 1,
                    )[j] by {
                        assert(comps@[j] == before[j + 1]);
                        assert(vec_views(before)[j + 1] == all.skip(i as int)[j + 1]);
                    }
                }
            }
            let ghost cv = c@;
            let ghost out0 = out@;
            proof {
                lemma_cluster_views(out0);
                lemma_numbered(all);
            }
            let cid = ClusterId::new((i + 1) as u64);
            out.push((cid, c));
            proof {
                lemma_cluster_views(out@);
                assert(cv == all[i as int]);
                assert(out@ == out0.push((cid, c)));
                assert forall|j: int| 0 <= j < i + 1 implies cluster_views(out@)[j] == numbered(all).take(
                    i + 1,
                )[j] by {
                    if j < i {
                        assert(out@[j] == out0[j]);
                        assert(cluster_views(out0)[j] == numbered(all).take(i as int)[j]);
                    } else {
                        assert(out@[j] == (cid, c));
                    }
                }
                assert(cluster_views(out@) =~= numbered(all).take(i + 1));
            }
            i = i + 1;
        }
        proof {
            assert(numbered(all).take(n as int) =~= numbered(all));
        }
        out
    }

    /// The cluster, numbered as `clusters` numbers it, that holds the window `id`.
    pub fn cluster_for_window(&self, id: WindowId, ids: &[WindowId]) -> (r: Option<
        (ClusterId, Vec<WindowId>),
    >)
        ensures
            match r {
                Some((cid, ws)) => exists|i: int|
                    #[trigger] first_holding(spec_components(self@, ids@), id, i) && cid == ClusterId(
                        (i + 1) as u64,
                    ) && ws@ == spec_components(self@, ids@)[i],
                None => forall|i: int|
                    0 <= i < spec_components(self@, ids@).len() ==> !(#[trigger] spec_components(
                        self@,
                        ids@,
                    )[i]).contains(id),
            },
    {
        let mut cs = self.clusters(ids);
        let ghost all = spec_components(self@, ids@);
        let mut i: usize = 0;
        while i < cs.len()
            invariant
                0 <= i <= cs.len(),
                cluster_views(cs@) == numbered(all),
                all == spec_components(self@, ids@),
                forall|j: int| 0 <= j < i ==> !(#[trigger] all[j]).contains(id),
            decreases cs.len() - i,
        {
            proof {
                lemma_cluster_views(cs@);
                lemma_numbered(all);
            }
            assert(cluster_views(cs@)[i as int] == numbered(all)[i as int]);
            assert(cluster_views(cs@)[i as int] == (cs@[i as int].0, cs@[i as int].1@));
            assert(cs@[i as int].1@ == all[i as int]);
            assert(cs@[i as int].0 == ClusterId((i + 1) as u64));
            if contains_id(&cs[i].1, id) {
                let ghost before = cs@;
                let found = cs.remove(i);
                proof {
                    assert(found == before[i as int]);
                    assert(first_holding(all, id, i as int));
                }
                return Some(found);
            }
            i = i + 1;
        }
        proof {
            lemma_cluster_views(cs@);
            lemma_numbered(all);
        }
        None
    }
}

/// What holds of the components found among the first `k` windows.
pub open spec fn comps_invariant(
    edges: Seq<(WindowId, WindowId)>,
    ids: Seq<WindowId>,
    k: int,
    visited: Seq<WindowId>,
    cs: Seq<Seq<WindowId>>,
) -> bool {
    &&& 0 <= k <= ids.len()
    &&& forall|x: WindowId| visited.contains(x) <==> in_earlier(cs, cs.len() as int, x)
    &&& forall|k2: int| 0 <= k2 < k ==> visited.contains(#[trigger] ids[k2])
    &&& forall|c: int, m: int| 0 <= c < cs.len() && 0 <= m < cs[c].len() ==> ids.contains(#[trigger] cs[c][m])
    &&& forall|c: int| 0 <= c < cs.len() ==> #[trigger] cs[c].len() > 0
    &&& forall|c: int| 0 <= c < cs.len() ==> (#[trigger] cs[c]).no_duplicates()
    &&& forall|c1: int, c2: int, x: WindowId|
        0 <= c1 < c2 < cs.len() && #[trigger] cs[c1].contains(x) ==> !(#[trigger] cs[c2].contains(x))
    &&& forall|c: int, m: int, k2: int|
        0 <= c < cs.len() && 0 <= m < cs[c].len() && 0 <= k2 < ids.len() && adjacent(
            edges,
            #[trigger] cs[c][m],
            #[trigger] ids[k2],
        ) ==> cs[c].contains(ids[k2])
    &&& forall|c: int, m: int|
        0 <= c < cs.len() && 0 < m < cs[c].len() ==> #[trigger] linked_from(edges, cs[c], 0, m)
    &&& forall|c: int| 0 <= c < cs.len() ==> #[trigger] starts_in_order(ids, k, cs, c)
}

/// Component `c` starts at the first occurrence, before position `k`, of its
/// first window, and every window before that lies in an earlier component.
pub open spec fn starts_in_order(ids: Seq<WindowId>, k: int, cs: Seq<Seq<WindowId>>, c: int) -> bool {
    exists|k0: int|
        0 <= k0 < k && #[trigger] first_occurrence(ids, k0, cs[c][0]) && (forall|k2: int|
            #![trigger ids[k2]]
            0 <= k2 < k0 ==> in_earlier(cs, c, ids[k2]))
}

proof fn lemma_invariant_visited_in_ids(
    edges: Seq<(WindowId, WindowId)>,
    ids: Seq<WindowId>,
    k: int,
    visited: Seq<WindowId>,
    cs: Seq<Seq<WindowId>>,
)
    requires
        comps_invariant(edges, ids, k, visited, cs),
    ensures
        forall|x: WindowId| visited.contains(x) ==> ids.contains(x),
{
    assert forall|x: WindowId| visited.contains(x) implies ids.contains(x) by {
        assert(in_earlier(cs, cs.len() as int, x));
        let c = choose|c: int| 0 <= c < cs.len() && #[trigger] cs[c].contains(x);
        let m = choose|m: int| 0 <= m < cs[c].len() && cs[c][m] == x;
        assert(ids.contains(cs[c][m]));
    }
}

proof fn lemma_skip_visited(
    edges: Seq<(WindowId, WindowId)>,
    ids: Seq<WindowId>,
    k: int,
    visited: Seq<WindowId>,
    cs: Seq<Seq<WindowId>>,
)
    requires
        comps_invariant(edges, ids, k, visited, cs),
        k < ids.len(),
        visited.contains(ids[k]),
    ensures
        comps_invariant(edges, ids, k + 1, visited, cs),
{
    assert forall|c: int| 0 <= c < cs.len() implies #[trigger] starts_in_order(ids, k + 1, cs, c) by {
        assert(starts_in_order(ids, k, cs, c));
        let k0 = choose|k0: int|
            0 <= k0 < k && #[trigger] first_occurrence(ids, k0, cs[c][0]) && (forall|k2: int|
                #![trigger ids[k2]]
                0 <= k2 < k0 ==> in_earlier(cs, c, ids[k2]));
        assert(first_occurrence(ids, k0, cs[c][0]));
    }
}

proof fn lemma_push_component(
    edges: Seq<(WindowId, WindowId)>,
    ids: Seq<WindowId>,
    k: int,
    v0: Seq<WindowId>,
    cs0: Seq<Seq<WindowId>>,
    v1: Seq<WindowId>,
    out: Seq<WindowId>,
)
    requires
        comps_invariant(edges, ids, k, v0, cs0),
        0 <= k < ids.len(),
        !v0.contains(ids[k]),
        forall|x: WindowId| v0.contains(x) ==> v1.contains(x),
        forall|x: WindowId| v1.contains(x) ==> ids.contains(x),
        out.len() > 0,
        out[0] == ids[k],
        out.no_duplicates(),
        forall|m: int| 0 <= m < out.len() ==> v1.contains(#[trigger] out[m]),
        forall|m: int| 0 <= m < out.len() ==> !v0.contains(#[trigger] out[m]),
        forall|x: WindowId| v1.contains(x) && !v0.contains(x) ==> out.contains(x),
        forall|x: WindowId, k2: int|
            v1.contains(x) && !v0.contains(x) && 0 <= k2 < ids.len() && #[trigger] adjacent(
                edges,
                x,
                ids[k2],
            ) ==> v1.contains(ids[k2]),
        forall|m: int| 0 < m < out.len() ==> #[trigger] linked_from(edges, out, 0, m),
    ensures
        comps_invariant(edges, ids, k + 1, v1, cs0.push(out)),
{
    let cs = cs0.push(out);
    let cn = cs0.len() as int;
    assert(cs[cn] == out);
    assert forall|c: int| 0 <= c < cn implies #[trigger] cs[c] == cs0[c] by {}
    assert forall|c: int, x: WindowId| 0 <= c <= cn && in_earlier(cs0, c, x) implies in_earlier(cs, c, x) by {
        let c2 = choose|c2: int| 0 <= c2 < c && #[trigger] cs0[c2].contains(x);
        assert(cs[c2] == cs0[c2]);
    }
    // visited is the union of the components
    assert forall|x: WindowId| v1.contains(x) <==> in_earlier(cs, cs.len() as int, x) by {
        if v1.contains(x) {
            if v0.contains(x) {
                assert(in_earlier(cs0, cn, x));
            } else {
                assert(cs[cn].contains(x));
            }
        }
        if in_earlier(cs, cs.len() as int, x) {
            let c = choose|c: int| 0 <= c < cs.len() && #[trigger] cs[c].contains(x);
            if c < cn {
                assert(cs0[c].contains(x));
                assert(in_earlier(cs0, cn, x));
            } else {
                let m = choose|m: int| 0 <= m < out.len() && out[m] == x;
            }
        }
    }
    assert forall|k2: int| 0 <= k2 < k + 1 implies v1.contains(#[trigger] ids[k2]) by {
        if k2 == k {
            assert(v1.contains(out[0]));
        }
    }
    assert forall|c: int, m: int| 0 <= c < cs.len() && 0 <= m < cs[c].len() implies ids.contains(#[trigger] cs[c][m]) by {
        if c == cn {
            assert(v1.contains(out[m]));
        } else {
            assert(cs[c] == cs0[c]);
        }
    }
    assert forall|c1: int, c2: int, x: WindowId|
        0 <= c1 < c2 < cs.len() && #[trigger] cs[c1].contains(x) implies !(#[trigger] cs[c2].contains(x)) by {
        if c2 == cn {
            assert(cs0[c1].contains(x));
            assert(in_earlier(cs0, cn, x));
            assert(v0.contains(x));
            if out.contains(x) {
                let m = choose|m: int| 0 <= m < out.len() && out[m] == x;
            }
        } else {
            assert(cs[c1] == cs0[c1]);
            assert(cs[c2] == cs0[c2]);
        }
    }
    assert forall|c: int, m: int, k2: int|
        0 <= c < cs.len() && 0 <= m < cs[c].len() && 0 <= k2 < ids.len() && adjacent(
            edges,
            #[trigger] cs[c][m],
            #[trigger] ids[k2],
        ) implies cs[c].contains(ids[k2]) by {
        if c == cn {
            let x = out[m];
            let y = ids[k2];
            assert(v1.contains(x) && !v0.contains(x));
            assert(adjacent(edges, x, ids[k2]));
            assert(v1.contains(y));
            if v0.contains(y) {
                assert(in_earlier(cs0, cn, y));
                let c2 = choose|c2: int| 0 <= c2 < cn && #[trigger] cs0[c2].contains(y);
                let m2 = choose|m2: int| 0 <= m2 < cs0[c2].len() && cs0[c2][m2] == y;
                lemma_invariant_visited_in_ids(edges, ids, k, v0, cs0);
                assert(ids.contains(x));
                let kx = choose|kx: int| 0 <= kx < ids.len() && ids[kx] == x;
                law_adjacent_symmetric(edges, x, y);
                assert(adjacent(edges, cs0[c2][m2], ids[kx]));
                assert(cs0[c2].contains(ids[kx]));
                assert(in_earlier(cs0, cn, x));
                assert(false);
            }
        } else {
            assert(cs[c] == cs0[c]);
        }
    }
    assert forall|c: int, m: int|
        0 <= c < cs.len() && 0 < m < cs[c].len() implies #[trigger] linked_from(edges, cs[c], 0, m) by {
        if c == cn {
            assert(linked_from(edges, out, 0, m));
        } else {
            assert(cs[c] == cs0[c]);
            assert(linked_from(edges, cs0[c], 0, m));
        }
    }
    assert forall|c: int| 0 <= c < cs.len() implies #[trigger] cs[c].len() > 0 by {
        if c < cn {
            assert(cs[c] == cs0[c]);
        }
    }
    assert forall|c: int| 0 <= c < cs.len() implies (#[trigger] cs[c]).no_duplicates() by {
        if c < cn {
            assert(cs[c] == cs0[c]);
        }
    }
    assert forall|c: int| 0 <= c < cs.len() implies #[trigger] starts_in_order(ids, k + 1, cs, c) by {
        if c == cn {
            assert forall|k3: int| 0 <= k3 < k implies ids[k3] != cs[c][0] by {
                assert(v0.contains(ids[k3]));
            }
            assert(first_occurrence(ids, k, cs[c][0]));
            assert forall|k2: int|
                #![trigger ids[k2]]
                0 <= k2 < k implies in_earlier(cs, c, ids[k2]) by {
                assert(v0.contains(ids[k2]));
                assert(in_earlier(cs0, cn, ids[k2]));
            }
        } else {
            assert(cs[c] == cs0[c]);
            assert(starts_in_order(ids, k, cs0, c));
            let k0 = choose|k0: int|
                0 <= k0 < k && #[trigger] first_occurrence(ids, k0, cs0[c][0]) && (forall|k2: int|
                    #![trigger ids[k2]]
                    0 <= k2 < k0 ==> in_earlier(cs0, c, ids[k2]));
            assert forall|k2: int|
                #![trigger ids[k2]]
                0 <= k2 < k0 implies in_earlier(cs, c, ids[k2]) by {
                assert(in_earlier(cs0, c, ids[k2]));
            }
            assert(first_occurrence(ids, k0, cs[c][0]));
        }
    }
}

proof fn lemma_invariant_complete(
    edges: Seq<(WindowId, WindowId)>,
    ids: Seq<WindowId>,
    visited: Seq<WindowId>,
    cs: Seq<Seq<WindowId>>,
)
    requires
        comps_invariant(edges, ids, ids.len() as int, visited, cs),
    ensures
        is_component_list(edges, ids, cs),
{
    assert forall|k2: int| 0 <= k2 < ids.len() implies #[trigger] in_earlier(cs, cs.len() as int, ids[k2]) by {
        assert(visited.contains(ids[k2]));
    }
    assert forall|c1: int, m1: int, c2: int, m2: int|
        0 <= c1 < cs.len() && 0 <= m1 < cs[c1].len() && 0 <= c2 < cs.len() && 0 <= m2 < cs[c2].len()
            && (c1 != c2 || m1 != m2) implies #[trigger] cs[c1][m1] != #[trigger] cs[c2][m2] by {
        if c1 == c2 {
        } else if c1 < c2 {
            assert(cs[c1].contains(cs[c1][m1]));
        } else {
            assert(cs[c2].contains(cs[c2][m2]));
        }
    }
    assert forall|c: int, k: int|
        0 <= c < cs.len() && 0 <= k < ids.len() && #[trigger] first_occurrence(ids, k, cs[c][0])
        implies forall|k2: int| #![trigger ids[k2]] 0 <= k2 < k ==> in_earlier(cs, c, ids[k2]) by {
        assert(starts_in_order(ids, ids.len() as int, cs, c));
        let k0 = choose|k0: int|
            0 <= k0 < ids.len() && #[trigger] first_occurrence(ids, k0, cs[c][0]) && (forall|k2: int|
                #![trigger ids[k2]]
                0 <= k2 < k0 ==> in_earlier(cs, c, ids[k2]));
        assert(k0 == k) by {
            if k0 < k {
                assert(ids[k0] != cs[c][0]);
            }
            if k < k0 {
                assert(ids[k] != cs[c][0]);
            }
        }
    }
}

/// Being joined is symmetric.
pub proof fn law_adjacent_symmetric(edges: Seq<(WindowId, WindowId)>, a: WindowId, b: WindowId)
    ensures
        adjacent(edges, a, b) == adjacent(edges, b, a),
{
    if adjacent(edges, a, b) {
        let i = choose|i: int| 0 <= i < edges.len() && (#[trigger] edges[i] == (a, b) || edges[i] == (b, a));
        assert(edges[i] == (b, a) || edges[i] == (a, b));
    }
    if adjacent(edges, b, a) {
        let i = choose|i: int| 0 <= i < edges.len() && (#[trigger] edges[i] == (b, a) || edges[i] == (a, b));
        assert(edges[i] == (a, b) || edges[i] == (b, a));
    }
}

/// Windows whose edges touch end up in the same cluster.
pub proof fn law_touching_windows_share_a_cluster(
    edges: Seq<(WindowId, WindowId)>,
    ids: Seq<WindowId>,
    comps: Seq<Seq<WindowId>>,
    i: int,
    j: int,
)
    requires
        is_component_list(edges, ids, comps),
        0 <= i < ids.len(),
        0 <= j < ids.len(),
        adjacent(edges, ids[i], ids[j]),
    ensures
        exists|c: int| 0 <= c < comps.len() && #[trigger] comps[c].contains(ids[i]) && comps[c].contains(ids[j]),
{
    assert(in_earlier(comps, comps.len() as int, ids[i]));
    let c = choose|c: int| 0 <= c < comps.len() && #[trigger] comps[c].contains(ids[i]);
    let m = choose|m: int| 0 <= m < comps[c].len() && comps[c][m] == ids[i];
    assert(adjacent(edges, comps[c][m], ids[j]));
    assert(comps[c].contains(ids[j]));
}

/// A window that touches no other window is a cluster of its own.
pub proof fn law_lone_window_is_its_own_cluster(
    edges: Seq<(WindowId, WindowId)>,
    ids: Seq<WindowId>,
    comps: Seq<Seq<WindowId>>,
    k: int,
)
    requires
        is_component_list(edges, ids, comps),
        0 <= k < ids.len(),
        forall|y: WindowId| !adjacent(edges, ids[k], y),
    ensures
        exists|c: int| 0 <= c < comps.len() && #[trigger] comps[c] == seq![ids[k]],
{
    let x = ids[k];
    assert(in_earlier(comps, comps.len() as int, x));
    let c = choose|c: int| 0 <= c < comps.len() && #[trigger] comps[c].contains(x);
    let m = choose|m: int| 0 <= m < comps[c].len() && comps[c][m] == x;
    if m > 0 {
        assert(linked_from(edges, comps[c], 0, m));
        let m2 = choose|m2: int| 0 <= m2 < m && adjacent(edges, #[trigger] comps[c][m2], comps[c][m]);
        law_adjacent_symmetric(edges, comps[c][m2], x);
        assert(!adjacent(edges, x, comps[c][m2]));
        assert(false);
    }
    if comps[c].len() > 1 {
        assert(linked_from(edges, comps[c], 0, 1));
        let m2 = choose|m2: int| 0 <= m2 < 1 && adjacent(edges, #[trigger] comps[c][m2], comps[c][1]);
        assert(m2 == 0);
        assert(!adjacent(edges, x, comps[c][1]));
        assert(false);
    }
    assert(comps[c] =~= seq![x]);
}

} // verus!
