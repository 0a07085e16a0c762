use vstd::prelude::*;
use vstd::string::*;
use crate::record::{Color, DataType, Entry, EntryView};
use crate::registry::{sorted_keys, Collection};
use crate::resolve::{candidates, first_present, is_skipped, resolve, Exceptions, Resolution};
use crate::text::{
    decompose, is_qualified, lex_lt, sorted_of, sorted_unique, strictly_sorted, strs, DecompositionError,
};

verus! {

/// One public type of the graph, with the targets of its strong and weak edges.
#[derive(Debug)]
pub struct Node {
    pub id: String,
    pub kind: DataType,
    pub color: Color,
    pub strong: Vec<String>,
    pub weak: Vec<String>,
}

pub struct NodeView {
    pub id: Seq<char>,
    pub kind: DataType,
    pub color: Color,
    pub strong: Seq<Seq<char>>,
    pub weak: Seq<Seq<char>>,
}

impl View for Node {
    type V = NodeView;

    open spec fn view(&self) -> NodeView {
        NodeView {
            id: self.id@,
            kind: self.kind,
            color: self.color,
            strong: strs(self.strong@),
            weak: strs(self.weak@),
        }
    }
}

/// A field reference that no rule resolves.
#[derive(Debug)]
pub struct UnresolvedReference {
    pub source: String,
    pub reference: String,
}

/// Why no graph came out.
#[derive(Debug)]
pub enum GraphError {
    /// A public identifier without `::`: the registry itself is malformed.
    Decomposition(DecompositionError),
    /// Every field reference that no rule resolves, in graph order.
    Unresolved(Vec<UnresolvedReference>),
}

/// The graph, or why there is none, as values.
pub enum GraphOutcome {
    Nodes(Seq<NodeView>),
    Unqualified(Seq<char>),
    Unresolved(Seq<(Seq<char>, Seq<char>)>),
}

/// Strong targets, weak targets and unresolved references of `refs`, fields of
/// `src`, in field order; strong when the source's category is green.
pub open spec fn deps_of(
    m: Map<Seq<char>, EntryView>,
    ex: Exceptions,
    src: Seq<char>,
    green: bool,
    refs: Seq<Seq<char>>,
) -> (Seq<Seq<char>>, Seq<Seq<char>>, Seq<Seq<char>>)
    decreases refs.len(),
{
    if refs.len() == 0 {
        (Seq::<Seq<char>>::empty(), Seq::<Seq<char>>::empty(), Seq::<Seq<char>>::empty())
    } else {
        let (s, w, u) = deps_of(m, ex, src, green, refs.drop_last());
        let f = refs.last();
        match first_present(candidates(ex, src, f), m) {
            Some(t) => if green {
                (s.push(t), w, u)
            } else {
                (s, w.push(t), u)
            },
            None => if is_skipped(ex.skips@, src, f) {
                (s, w, u)
            } else {
                (s, w, u.push(f))
            },
        }
    }
}

/// The dependencies of the record `e` of `k`.
pub open spec fn entry_deps(m: Map<Seq<char>, EntryView>, ex: Exceptions, k: Seq<char>, e: EntryView) -> (
    Seq<Seq<char>>,
    Seq<Seq<char>>,
    Seq<Seq<char>>,
) {
    deps_of(m, ex, k, e.color().is_green(), e.refs)
}

/// The node of identifier `k`: its edge targets, strong and weak, each in strictly
/// ascending order.
pub open spec fn node_of(m: Map<Seq<char>, EntryView>, ex: Exceptions, k: Seq<char>) -> NodeView {
    let d = entry_deps(m, ex, k, m[k]);
    NodeView {
        id: k,
        kind: m[k].kind,
        color: m[k].color(),
        strong: sorted_of(d.0.to_set()),
        weak: sorted_of(d.1.to_set()),
    }
}

/// Whether a record takes part in the graph: a public type, and under `only_json` one
/// with some serialization.
pub open spec fn shown(e: EntryView, only_json: bool) -> bool {
    e.public && !(only_json && e.color() == Color::White)
}

/// The nodes of the shown identifiers among `ks`, in that order.
pub open spec fn nodes_of(
    m: Map<Seq<char>, EntryView>,
    ex: Exceptions,
    ks: Seq<Seq<char>>,
    only_json: bool,
) -> Seq<NodeView>
    decreases ks.len(),
{
    if ks.len() == 0 {
        Seq::<NodeView>::empty()
    } else {
        let p = nodes_of(m, ex, ks.drop_last(), only_json);
        if shown(m[ks.last()], only_json) {
            p.push(node_of(m, ex, ks.last()))
        } else {
            p
        }
    }
}

/// The unresolved (source, reference) pairs of the shown identifiers among `ks`.
pub open spec fn unresolved_of(
    m: Map<Seq<char>, EntryView>,
    ex: Exceptions,
    ks: Seq<Seq<char>>,
    only_json: bool,
) -> Seq<
    (Seq<char>, Seq<char>),
>
    decreases ks.len(),
{
    if ks.len() == 0 {
        Seq::<(Seq<char>, Seq<char>)>::empty()
    } else {
        let p = unresolved_of(m, ex, ks.drop_last(), only_json);
        let k = ks.last();
        if shown(m[k], only_json) {
            p + entry_deps(m, ex, k, m[k]).2.map_values(|f: Seq<char>| (k, f))
        } else {
            p
        }
    }
}

/// The first shown identifier among `ks` without `::`.
pub open spec fn first_unqualified(m: Map<Seq<char>, EntryView>, ks: Seq<Seq<char>>, only_json: bool) -> Option<
    Seq<char>,
>
    decreases ks.len(),
{
    if ks.len() == 0 {
        None
    } else if shown(m[ks[0]], only_json) && !is_qualified(ks[0]) {
        Some(ks[0])
    } else {
        first_unqualified(m, ks.drop_first(), only_json)
    }
}

/// The graph of a registry: its shown types in ascending order of identifier; no
/// graph where a shown identifier is unqualified, nor where a reference is unresolved.
pub open spec fn graph_of(m: Map<Seq<char>, EntryView>, ex: Exceptions, only_json: bool) -> GraphOutcome {
    let ks = sorted_keys(m);
    match first_unqualified(m, ks, only_json) {
        Some(k) => GraphOutcome::Unqualified(k),
        None => {
            let u = unresolved_of(m, ex, ks, only_json);
            if u.len() > 0 {
                GraphOutcome::Unresolved(u)
            } else {
                GraphOutcome::Nodes(nodes_of(m, ex, ks, only_json))
            }
        },
    }
}

pub open spec fn pairs_of(v: Seq<UnresolvedReference>) -> Seq<(Seq<char>, Seq<char>)> {
    v.map_values(|u: UnresolvedReference| (u.source@, u.reference@))
}

pub open spec fn nodes_view(v: Seq<Node>) -> Seq<NodeView> {
    v.map_values(|n: Node| n@)
}

/// What a result of `build_graph` says, as values.
pub open spec fn outcome_of(r: Result<Vec<Node>, GraphError>) -> GraphOutcome {
    match r {
        Ok(v) => GraphOutcome::Nodes(nodes_view(v@)),
        Err(GraphError::Decomposition(e)) => GraphOutcome::Unqualified(e.id@),
        Err(GraphError::Unresolved(v)) => GraphOutcome::Unresolved(pairs_of(v@)),
    }
}

/// Adds a resolved target to the strong list when `green`, else to the weak list.
fn pusher(target: String, green: bool, solid: &mut Vec<String>, dashed: &mut Vec<String>)
    ensures
        green ==> strs(final(solid)@) == strs(old(solid)@).push(target@) && final(dashed)@ == old(dashed)@,
        !green ==> strs(final(dashed)@) == strs(old(dashed)@).push(target@) && final(solid)@ == old(solid)@,
{
    if green {
        solid.push(target);
        assert(strs(solid@) =~= strs(old(solid)@).push(target@));
    } else {
        dashed.push(target);
        assert(strs(dashed@) =~= strs(old(dashed)@).push(target@));
    }
}

impl Collection {
    /// Resolves every field reference of `entry`, the record of `name`: the targets of
    /// strong edges (when the category is green), of weak edges, and the references
    /// that nothing resolves, each in field order (`build_graph` sorts the targets).
    pub fn build_dependencies_for_csv(&self, name: &str, entry: &Entry, ex: &Exceptions) -> (r: (
        Vec<String>,
        Vec<String>,
        Vec<String>,
    ))
        requires
            self.wf(),
        ensures
            (strs(r.0@), strs(r.1@), strs(r.2@)) == entry_deps(self@, *ex, name@, entry@),
    {
        let mut solid: Vec<String> = Vec::new();
        let mut dashed: Vec<String> = Vec::new();
        let mut unresolved: Vec<String> = Vec::new();
        let green = entry.get_color().is_strong();
        let ghost refs = entry@.refs;
        let mut i: usize = 0;
        while i < entry.fields.len()
            invariant
                self.wf(),
                i <= refs.len(),
                refs == strs(entry.fields@),
                green == entry@.color().is_green(),
                (strs(solid@), strs(dashed@), strs(unresolved@)) == deps_of(
                    self@,
                    *ex,
                    name@,
                    green,
                    refs.subrange(0, i as int),
                ),
            decreases refs.len() - i,
        {
            assert(refs.subrange(0, i + 1).drop_last() =~= refs.subrange(0, i as int));
            let f = &entry.fields[i];
            let ghost s0 = solid@;
            let ghost w0 = dashed@;
            let ghost u0 = unresolved@;
            match resolve(self, ex, name, f.as_str()) {
                Resolution::Target(t) => {
                    pusher(t, green, &mut solid, &mut dashed);
                },
                Resolution::NoEdge => {},
                Resolution::Unresolved => {
                    unresolved.push(f.clone());
                    assert(strs(unresolved@) =~= strs(u0).push(f@));
                },
            }
            i = i + 1;
        }
        assert(refs.subrange(0, refs.len() as int) =~= refs);
        (solid, dashed, unresolved)
    }

    /// The first shown identifier without `::`, if any.
    fn find_unqualified(&self, only_json: bool) -> (r: Option<String>)
        requires
            self.wf(),
        ensures
            opt_str(r) == first_unqualified(self@, sorted_keys(self@), only_json),
    {
        proof {
            self.lemma_keys_sorted();
        }
        let ghost ks = sorted_keys(self@);
        let n = self.len();
        let mut i: usize = 0;
        assert(ks.subrange(0, n as int) =~= ks);
        while i < n
            invariant
                self.wf(),
                ks == sorted_keys(self@),
                n == ks.len(),
                i <= n,
                first_unqualified(self@, ks, only_json) == first_unqualified(self@, ks.subrange(i as int, n as int), only_json),
            decreases n - i,
        {
            proof {
                self.lemma_keys_sorted();
                self.lemma_view_at(i as int);
            }
            let ghost rest = ks.subrange(i as int, n as int);
            assert(rest.drop_first() =~= ks.subrange(i + 1, n as int));
            let id = self.id_at(i);
            let e = self.entry_at(i);
            if e.public && !(only_json && e.get_color() == Color::White) {
                if let Err(e) = decompose(id.as_str()) {
                    return Some(e.id);
                }
            }
            i = i + 1;
        }
        None
    }

    /// The graph of the registry: a node for each public type (under `only_json`, each
    /// public type with some serialization), in ascending order of identifier, with its
    /// strong and weak targets each in ascending order, each once. Fails on the first
    /// such identifier without `::`; else on all the
    /// field references that nothing resolves, gathered in graph order.
    pub fn build_graph(&self, ex: &Exceptions, only_json: bool) -> (r: Result<Vec<Node>, GraphError>)
        requires
            self.wf(),
        ensures
            outcome_of(r) == graph_of(self@, *ex, only_json),
            r matches Ok(v) ==> forall|j: int|
                0 <= j < v@.len() ==> strictly_sorted((#[trigger] v@[j])@.strong) && strictly_sorted(v@[j]@.weak),
    {
        if let Some(id) = self.find_unqualified(only_json) {
            return Err(GraphError::Decomposition(DecompositionError { id }));
        }
        proof {
            self.lemma_keys_sorted();
        }
        let ghost m = self@;
        let ghost ks = sorted_keys(self@);
        let n = self.len();
        let mut nodes: Vec<Node> = Vec::new();
        let mut missing: Vec<UnresolvedReference> = Vec::new();
        let mut i: usize = 0;
        while i < n
            invariant
                self.wf(),
                m == self@,
                ks == sorted_keys(m),
                n == ks.len(),
                i <= n,
                nodes_view(nodes@) == nodes_of(m, *ex, ks.subrange(0, i as int), only_json),
                pairs_of(missing@) == unresolved_of(m, *ex, ks.subrange(0, i as int), only_json),
                forall|j: int|
                    0 <= j < nodes@.len() ==> strictly_sorted((#[trigger] nodes@[j])@.strong) && strictly_sorted(
                        nodes@[j]@.weak,
                    ),
            decreases n - i,
        {
            proof {
                self.lemma_keys_sorted();
                self.lemma_view_at(i as int);
            }
            assert(ks.subrange(0, i + 1).drop_last() =~= ks.subrange(0, i as int));
            let id = self.id_at(i);
            let entry = self.entry_at(i);
            if entry.public && !(only_json && entry.get_color() == Color::White) {
                let (strong, weak, unresolved) = self.build_dependencies_for_csv(id.as_str(), entry, ex);
                let ghost m0 = missing@;
                let mut j: usize = 0;
                while j < unresolved.len()
                    invariant
                        j <= unresolved@.len(),
                        pairs_of(missing@) == pairs_of(m0) + strs(unresolved@).subrange(0, j as int).map_values(
                            |f: Seq<char>| (id@, f),
                        ),
                    decreases unresolved@.len() - j,
                {
                    let ghost before = missing@;
                    missing.push(UnresolvedReference { source: id.clone(), reference: unresolved[j].clone() });
                    assert(pairs_of(missing@) =~= pairs_of(before).push((id@, unresolved@[j as int]@)));
                    assert(strs(unresolved@).subrange(0, j + 1).map_values(|f: Seq<char>| (id@, f)) =~= strs(
                        unresolved@,
                    ).subrange(0, j as int).map_values(|f: Seq<char>| (id@, f)).push((id@, unresolved@[j as int]@)));
                    j = j + 1;
                }
                assert(strs(unresolved@).subrange(0, unresolved@.len() as int) =~= strs(unresolved@));
                let node = Node {
                    id: id.clone(),
                    kind: entry.kind,
                    color: entry.get_color(),
                    strong: sorted_unique(&strong),
                    weak: sorted_unique(&weak),
                };
                let ghost nb = nodes@;
                nodes.push(node);
                assert(nodes_view(nodes@) =~= nodes_view(nb).push(node@));
                assert(pairs_of(missing@) =~= unresolved_of(m, *ex, ks.subrange(0, i + 1), only_json));
            }
            i = i + 1;
        }
        assert(ks.subrange(0, n as int) =~= ks);
        if missing.len() > 0 {
            Err(GraphError::Unresolved(missing))
        } else {
            Ok(nodes)
        }
    }
}

pub open spec fn opt_str(o: Option<String>) -> Option<Seq<char>> {
    match o {
        Some(s) => Some(s@),
        None => None,
    }
}

/// `f` is one of `refs` of `src`, resolves by no rule, and is not listed as leading
/// to no edge.
pub open spec fn unresolved_in(
    m: Map<Seq<char>, EntryView>,
    ex: Exceptions,
    src: Seq<char>,
    refs: Seq<Seq<char>>,
    f: Seq<char>,
) -> bool {
    &&& refs.contains(f)
    &&& first_present(candidates(ex, src, f), m) is None
    &&& !is_skipped(ex.skips@, src, f)
}

/// Each unresolved reference of `refs` is one of them, resolves by no rule, and is
/// not listed as leading to no edge.
pub proof fn lemma_deps_unresolved(
    m: Map<Seq<char>, EntryView>,
    ex: Exceptions,
    src: Seq<char>,
    green: bool,
    refs: Seq<Seq<char>>,
)
    ensures
        forall|i: int|
            0 <= i < deps_of(m, ex, src, green, refs).2.len() ==> unresolved_in(
                m,
                ex,
                src,
                refs,
                #[trigger] deps_of(m, ex, src, green, refs).2[i],
            ),
    decreases refs.len(),
{
    if refs.len() > 0 {
        lemma_deps_unresolved(m, ex, src, green, refs.drop_last());
        let u = deps_of(m, ex, src, green, refs).2;
        let u0 = deps_of(m, ex, src, green, refs.drop_last()).2;
        assert forall|i: int| 0 <= i < u0.len() implies unresolved_in(m, ex, src, refs, #[trigger] u0[i]) by {
            assert(unresolved_in(m, ex, src, refs.drop_last(), u0[i]));
            let f = u0[i];
            let k = choose|k: int| 0 <= k < refs.drop_last().len() && refs.drop_last()[k] == f;
            assert(refs[k] == f);
        }
        assert(refs[refs.len() - 1] == refs.last());
    }
}

/// An unresolved-reference failure names exactly the public source type and the
/// reference string: the reference is among that type's field references, no rule
/// resolves it, and it is not listed as leading to no edge.
pub proof fn lemma_unresolved_names_source(
    m: Map<Seq<char>, EntryView>,
    ex: Exceptions,
    ks: Seq<Seq<char>>,
    only_json: bool,
)
    ensures
        forall|i: int|
            0 <= i < unresolved_of(m, ex, ks, only_json).len() ==> ks.contains((#[trigger] unresolved_of(m, ex, ks, only_json)[i]).0)
                && m[unresolved_of(m, ex, ks, only_json)[i].0].public && unresolved_in(
                m,
                ex,
                unresolved_of(m, ex, ks, only_json)[i].0,
                m[unresolved_of(m, ex, ks, only_json)[i].0].refs,
                unresolved_of(m, ex, ks, only_json)[i].1,
            ),
    decreases ks.len(),
{
    if ks.len() > 0 {
        lemma_unresolved_names_source(m, ex, ks.drop_last(), only_json);
        let k = ks.last();
        let p = unresolved_of(m, ex, ks.drop_last(), only_json);
        assert forall|i: int| 0 <= i < p.len() implies ks.contains(#[trigger] p[i].0) by {
            let j = choose|j: int| 0 <= j < ks.drop_last().len() && ks.drop_last()[j] == p[i].0;
            assert(ks[j] == p[i].0);
        }
        if shown(m[k], only_json) {
            let d = entry_deps(m, ex, k, m[k]).2;
            lemma_deps_unresolved(m, ex, k, m[k].color().is_green(), m[k].refs);
            let q = d.map_values(|f: Seq<char>| (k, f));
            assert forall|i: int| p.len() <= i < p.len() + q.len() implies #[trigger] (p + q)[i] == (k, d[i - p.len()]) by {}
            assert(ks[ks.len() - 1] == k);
        }
    }
}

/// The node identifiers are among `ks`, and ascending when `ks` is.
proof fn lemma_nodes_follow(m: Map<Seq<char>, EntryView>, ex: Exceptions, ks: Seq<Seq<char>>, only_json: bool)
    requires
        strictly_sorted(ks),
    ensures
        forall|i: int| 0 <= i < nodes_of(m, ex, ks, only_json).len() ==> ks.contains(#[trigger] nodes_of(m, ex, ks, only_json)[i].id),
        forall|i: int|
            0 <= i < nodes_of(m, ex, ks, only_json).len() ==> m[(#[trigger] nodes_of(m, ex, ks, only_json)[i]).id].public
                && nodes_of(m, ex, ks, only_json)[i].kind == m[nodes_of(m, ex, ks, only_json)[i].id].kind,
        strictly_sorted(nodes_of(m, ex, ks, only_json).map_values(|n: NodeView| n.id)),
    decreases ks.len(),
{
    if ks.len() > 0 {
        let d = ks.drop_last();
        assert(strictly_sorted(d)) by {
            assert forall|i: int, j: int| 0 <= i < j < d.len() implies lex_lt(#[trigger] d[i], #[trigger] d[j]) by {
                assert(d[i] == ks[i] && d[j] == ks[j]);
            }
        }
        lemma_nodes_follow(m, ex, d, only_json);
        let p = nodes_of(m, ex, d, only_json);
        assert forall|i: int| 0 <= i < p.len() implies ks.contains(#[trigger] p[i].id) by {
            let j = choose|j: int| 0 <= j < d.len() && d[j] == p[i].id;
            assert(ks[j] == p[i].id);
        }
        if shown(m[ks.last()], only_json) {
            let n = nodes_of(m, ex, ks, only_json);
            let ids = n.map_values(|x: NodeView| x.id);
            let pids = p.map_values(|x: NodeView| x.id);
            assert forall|i: int| 0 <= i < p.len() implies lex_lt(#[trigger] p[i].id, ks.last()) by {
                let j = choose|j: int| 0 <= j < d.len() && d[j] == p[i].id;
                assert(ks[j] == p[i].id);
                assert(ks[ks.len() - 1] == ks.last());
            }
            assert forall|i: int, j: int| 0 <= i < j < ids.len() implies lex_lt(#[trigger] ids[i], #[trigger] ids[j]) by {
                if j < p.len() {
                    assert(ids[i] == pids[i] && ids[j] == pids[j]);
                } else {
                    assert(ids[i] == p[i].id);
                    assert(ids[j] == ks.last());
                }
            }
            assert(ks[ks.len() - 1] == ks.last());
        }
    }
}

/// The graph depends on the registry's contents alone, not on the order in which
/// declarations were entered: registries with the same records give the same graph,
/// nodes come in strictly ascending order of identifier, each node is a record, and
/// no node is of `Unknown` kind.
pub proof fn lemma_graph_deterministic(c1: &Collection, c2: &Collection, ex: Exceptions, only_json: bool)
    requires
        c1.wf(),
        c2.wf(),
        c1@ == c2@,
    ensures
        graph_of(c1@, ex, only_json) == graph_of(c2@, ex, only_json),
        graph_of(c1@, ex, only_json) matches GraphOutcome::Nodes(ns) ==> {
            &&& strictly_sorted(ns.map_values(|n: NodeView| n.id))
            &&& forall|i: int| 0 <= i < ns.len() ==> c1@.contains_key(#[trigger] ns[i].id)
            &&& forall|i: int| 0 <= i < ns.len() ==> (#[trigger] ns[i]).kind != DataType::Unknown
        },
{
    c1.lemma_keys_sorted();
    let ks = sorted_keys(c1@);
    lemma_nodes_follow(c1@, ex, ks, only_json);
    c1.lemma_public_known();
    assert forall|k: Seq<char>| ks.contains(k) implies c1@.contains_key(k) by {
        assert(ks.to_set().contains(k));
    }
}

} // verus!
