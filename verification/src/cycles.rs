//! The cycle detector: builds a directed graph over the IR's resources (one
//! node per resource, one edge per resource reference after unwrapping
//! lists) and rejects any cycle, self-reference included, by depth-first
//! search with three-state coloring.
use vstd::prelude::*;
use vstd::string::StringExecFns;

use crate::ir::{IRField, IRProgram, IRResource, IRType};

verus! {

/// Every edge of the graph points at a node of the graph.
pub open spec fn spec_wf_graph(g: Seq<Seq<int>>) -> bool {
    forall|i: int, k: int|
        0 <= i < g.len() && 0 <= k < g[i].len() ==> 0 <= #[trigger] g[i][k] < g.len()
}

/// A directed edge of the adjacency-list graph.
pub open spec fn spec_edge(g: Seq<Seq<int>>, a: int, b: int) -> bool {
    0 <= a < g.len() && g[a].contains(b)
}

/// A closed walk of at least one edge: consecutive nodes are joined by
/// edges and the walk returns to its first node.
pub open spec fn spec_is_cycle(g: Seq<Seq<int>>, p: Seq<int>) -> bool {
    p.len() >= 2 && p[0] == p[p.len() - 1] && (forall|k: int|
        0 <= k < p.len() - 1 ==> spec_edge(g, #[trigger] p[k], p[k + 1]))
}

pub open spec fn spec_has_cycle(g: Seq<Seq<int>>) -> bool {
    exists|p: Seq<int>| spec_is_cycle(g, p)
}

/// The first `upto` node names of a cycle, joined by arrows.
pub open spec fn spec_chain(names: Seq<Seq<char>>, c: Seq<int>, upto: int) -> Seq<char>
    decreases upto,
{
    if upto <= 0 {
        Seq::empty()
    } else if upto == 1 {
        names[c[0]]
    } else {
        spec_chain(names, c, upto - 1) + " \u{2192} "@ + names[c[upto - 1]]
    }
}

/// The cycle error: the arrow-joined chain of the cycle's resource names,
/// closing on the repeated name (the cycle's first entry equals its last).
pub open spec fn spec_cycle_message(names: Seq<Seq<char>>, c: Seq<int>) -> Seq<char> {
    "Cyclic dependency detected: "@ + spec_chain(names, c, c.len() as int)
}

/// What a cycle report says: the message is the chain of some cycle of the
/// graph, its nodes all named.
#[verifier::opaque]
pub open spec fn spec_cycle_error(g: Seq<Seq<int>>, names: Seq<Seq<char>>, msg: Seq<char>) -> bool {
    exists|c: Seq<int>|
        spec_is_cycle(g, c) && (forall|q: int| 0 <= q < c.len() ==> 0 <= #[trigger] c[q]
            < names.len()) && msg == spec_cycle_message(names, c)
}

/// Introduction of `spec_cycle_error` with the cycle given.
proof fn lemma_cycle_error(g: Seq<Seq<int>>, names: Seq<Seq<char>>, msg: Seq<char>, c: Seq<int>)
    requires
        spec_is_cycle(g, c),
        forall|q: int| 0 <= q < c.len() ==> 0 <= #[trigger] c[q] < names.len(),
        msg == spec_cycle_message(names, c),
    ensures
        spec_cycle_error(g, names, msg),
{
    reveal(spec_cycle_error);
}

/// The resource references a type contributes as edges: none for a
/// primitive, one for a resource reference, and whatever the element type
/// contributes for a list.
pub open spec fn spec_type_refs(t: IRType) -> Seq<int>
    decreases t,
{
    match t {
        IRType::Primitive(_) => Seq::empty(),
        IRType::ResourceRef(j) => seq![j as int],
        IRType::List(inner) => spec_type_refs(*inner),
    }
}

/// The edges out of a resource: its fields' references in declaration
/// order, starting at field `i`.
pub open spec fn spec_field_refs(fields: Seq<IRField>, i: int) -> Seq<int>
    decreases fields.len() - i,
{
    if i < 0 || i >= fields.len() {
        Seq::empty()
    } else {
        spec_type_refs(fields[i].field_type) + spec_field_refs(fields, i + 1)
    }
}

pub open spec fn spec_resource_refs(r: IRResource) -> Seq<int> {
    spec_field_refs(r.fields@, 0)
}

/// Every reference in the type stays below `n`.
pub open spec fn spec_type_refs_ok(t: IRType, n: int) -> bool
    decreases t,
{
    match t {
        IRType::Primitive(_) => true,
        IRType::ResourceRef(j) => (j as int) < n,
        IRType::List(inner) => spec_type_refs_ok(*inner, n),
    }
}

/// Every resource reference anywhere in the IR is a valid index — the
/// resolver's guarantee.
pub open spec fn spec_ir_refs_ok(ir: IRProgram) -> bool {
    forall|i: int, j: int|
        0 <= i < ir.resources@.len() && 0 <= j < ir.resources@[i].fields@.len()
            ==> spec_type_refs_ok(
            (#[trigger] ir.resources@[i].fields@[j]).field_type,
            ir.resources@.len() as int,
        )
}

/// The adjacency list of one node, as mathematical integers.
pub open spec fn spec_adj(v: Vec<usize>) -> Seq<int> {
    v@.map(|k: int, e: usize| e as int)
}

/// The number of `true` entries.
pub open spec fn count_true(s: Seq<bool>) -> int
    decreases s.len(),
{
    if s.len() == 0 {
        0
    } else {
        count_true(s.drop_last()) + if s.last() {
            1int
        } else {
            0int
        }
    }
}

pub struct CycleDetector {
    graph: Vec<Vec<usize>>,
    resource_names: Vec<String>,
}

/// The invariant the depth-first search maintains over its coloring, the
/// active path and the ghost finish order:
/// - `rec` marks exactly the nodes of the active path, whose consecutive
///   nodes are joined by edges;
/// - `order` lists the finished nodes (visited and off the path), each once,
///   with every neighbor of a finished node finished strictly earlier.
/// A finish order: no node twice, every entry a node of the graph, and
/// every neighbor of an entry listed strictly earlier.
pub open spec fn spec_order_ok(g: Seq<Seq<int>>, order: Seq<int>) -> bool {
    &&& forall|a: int, b: int| 0 <= a < b < order.len() ==> order[a] != order[b]
    &&& forall|a: int| 0 <= a < order.len() ==> 0 <= #[trigger] order[a] < g.len()
    &&& forall|a: int, y: int|
        0 <= a < order.len() && #[trigger] g[order[a]].contains(y) ==> exists|a2: int|
            0 <= a2 < a && order[a2] == y
}

pub open spec fn spec_dfs_inv(
    g: Seq<Seq<int>>,
    visited: Seq<bool>,
    rec: Seq<bool>,
    path: Seq<usize>,
    order: Seq<int>,
) -> bool {
    &&& visited.len() == g.len()
    &&& rec.len() == g.len()
    &&& forall|k: int| 0 <= k < path.len() ==> ((#[trigger] path[k]) as int) < g.len()
    &&& forall|x: int|
        0 <= x < g.len() ==> (rec[x] <==> exists|k: int|
            0 <= k < path.len() && (#[trigger] path[k]) as int == x)
    &&& forall|x: int| 0 <= x < g.len() && rec[x] ==> visited[x]
    &&& forall|k: int|
        0 <= k < path.len() - 1 ==> spec_edge(g, (#[trigger] path[k]) as int, path[k + 1] as int)
    &&& spec_order_ok(g, order)
    &&& forall|a: int|
        0 <= a < order.len() ==> visited[#[trigger] order[a]] && !rec[order[a]]
    &&& forall|x: int| 0 <= x < g.len() && visited[x] && !rec[x] ==> order.contains(x)
}

impl CycleDetector {
    /// The adjacency lists, as mathematical integers.
    pub closed spec fn spec_graph(&self) -> Seq<Seq<int>> {
        self.graph@.map(|i: int, v: Vec<usize>| spec_adj(v))
    }

    /// The resource names, index for index with the graph's nodes.
    pub closed spec fn spec_names(&self) -> Seq<Seq<char>> {
        self.resource_names@.map(|i: int, s: String| s@)
    }

    /// Every edge points at a node, and every node has a name.
    pub open spec fn wf(&self) -> bool {
        spec_wf_graph(self.spec_graph()) && self.spec_names().len() == self.spec_graph().len()
    }

    /// Build the dependency graph of an IR program: node `i` is resource
    /// `i`, and its adjacency list holds its fields' references in
    /// declaration order. Never fails; on an IR whose references are all
    /// valid indices — which the resolver guarantees — the result is
    /// well-formed.
    pub fn build(ir: &IRProgram) -> (r: Result<CycleDetector, String>)
        ensures
            r is Ok,
            r->Ok_0.spec_graph().len() == ir.resources@.len(),
            forall|i: int|
                0 <= i < ir.resources@.len() ==> r->Ok_0.spec_graph()[i] == spec_resource_refs(
                    #[trigger] ir.resources@[i],
                ),
            r->Ok_0.spec_names().len() == ir.resources@.len(),
            forall|i: int|
                0 <= i < ir.resources@.len() ==> r->Ok_0.spec_names()[i] == (
                #[trigger] ir.resources@[i]).name@,
            spec_ir_refs_ok(*ir) ==> r->Ok_0.wf(),
    {
        let mut graph: Vec<Vec<usize>> = Vec::new();
        let mut i: usize = 0;
        while i < ir.resources.len()
            invariant
                0 <= i <= ir.resources@.len(),
                graph@.len() == i,
                forall|a: int|
                    0 <= a < i ==> spec_adj(#[trigger] graph@[a]) == spec_resource_refs(
                        ir.resources@[a],
                    ),
            decreases ir.resources@.len() - i,
        {
            let resource = &ir.resources[i];
            let mut adj: Vec<usize> = Vec::new();
            let mut j: usize = 0;
            while j < resource.fields.len()
                invariant
                    *resource == ir.resources@[i as int],
                    0 <= i < ir.resources@.len(),
                    0 <= j <= resource.fields@.len(),
                    spec_field_refs(resource.fields@, 0) == spec_adj(adj) + spec_field_refs(
                        resource.fields@,
                        j as int,
                    ),
                decreases resource.fields@.len() - j,
            {
                let ghost before = spec_adj(adj);
                Self::collect_refs(&resource.fields[j].field_type, &mut adj);
                proof {
                    let tr = spec_type_refs(resource.fields@[j as int].field_type);
                    assert(before + (tr + spec_field_refs(resource.fields@, j + 1)) =~= (before
                        + tr) + spec_field_refs(resource.fields@, j + 1));
                }
                j = j + 1;
            }
            proof {
                assert(spec_adj(adj) + Seq::<int>::empty() =~= spec_adj(adj));
            }
            graph.push(adj);
            i = i + 1;
        }

        let mut resource_names: Vec<String> = Vec::new();
        let mut k: usize = 0;
        while k < ir.resources.len()
            invariant
                0 <= k <= ir.resources@.len(),
                resource_names@.len() == k,
                forall|a: int|
                    0 <= a < k ==> (#[trigger] resource_names@[a])@ == ir.resources@[a].name@,
            decreases ir.resources@.len() - k,
        {
            resource_names.push(ir.resources[k].name.clone());
            k = k + 1;
        }

        let detector = CycleDetector { graph, resource_names };
        proof {
            if spec_ir_refs_ok(*ir) {
                assert forall|a: int, m: int|
                    0 <= a < detector.spec_graph().len() && 0 <= m
                        < detector.spec_graph()[a].len() implies 0 <= #[trigger] detector.spec_graph(
                )[a][m] < detector.spec_graph().len() by {
                    lemma_field_refs_range(
                        ir.resources@[a].fields@,
                        0,
                        ir.resources@.len() as int,
                    );
                }
            }
        }
        Ok(detector)
    }

    /// Append the references of one type to the adjacency list under
    /// construction.
    fn collect_refs(ir_type: &IRType, adj: &mut Vec<usize>)
        ensures
            spec_adj(*final(adj)) == spec_adj(*old(adj)) + spec_type_refs(*ir_type),
        decreases *ir_type,
    {
        match ir_type {
            IRType::Primitive(_) => {
                proof {
                    assert(spec_adj(*adj) =~= spec_adj(*adj) + Seq::<int>::empty());
                }
            },
            IRType::ResourceRef(to_idx) => {
                adj.push(*to_idx);
                proof {
                    assert(spec_adj(*adj) =~= spec_adj(*old(adj)) + seq![*to_idx as int]);
                }
            },
            IRType::List(inner) => {
                Self::collect_refs(inner, adj);
            },
        }
    }

    /// Detect cycles: succeeds exactly on an acyclic graph; on a cyclic one
    /// the error is the arrow-joined chain of the resource names of a cycle
    /// of the graph, closing on the repeated name.
    pub fn detect(&self) -> (r: Result<(), String>)
        requires
            self.wf(),
        ensures
            r is Ok <==> !spec_has_cycle(self.spec_graph()),
            r is Err ==> spec_cycle_error(self.spec_graph(), self.spec_names(), r->Err_0@),
    {
        let ghost g = self.spec_graph();
        let n = self.graph.len();
        let mut visited: Vec<bool> = Vec::new();
        let mut rec_stack: Vec<bool> = Vec::new();
        let mut fill: usize = 0;
        while fill < n
            invariant
                0 <= fill <= n,
                visited@.len() == fill,
                rec_stack@.len() == fill,
                forall|x: int| 0 <= x < fill ==> !(#[trigger] visited@[x]),
                forall|x: int| 0 <= x < fill ==> !(#[trigger] rec_stack@[x]),
            decreases n - fill,
        {
            visited.push(false);
            rec_stack.push(false);
            fill = fill + 1;
        }
        let mut path: Vec<usize> = Vec::new();
        let mut order: Ghost<Seq<int>> = Ghost(Seq::empty());
        proof {
            assert(spec_dfs_inv(g, visited@, rec_stack@, path@, order@));
        }

        let mut i: usize = 0;
        while i < n
            invariant
                n == g.len(),
                g == self.spec_graph(),
                self.wf(),
                0 <= i <= n,
                path@.len() == 0,
                spec_dfs_inv(g, visited@, rec_stack@, path@, order@),
                forall|x: int| 0 <= x < i ==> #[trigger] visited@[x],
            decreases n - i,
        {
            if !visited[i] {
                let rr = self.dfs(i, &mut visited, &mut rec_stack, &mut path, order);
                order = rr.1;
                match rr.0 {
                    Ok(()) => {},
                    Err(e) => {
                        return Err(e);
                    },
                }
            }
            i = i + 1;
        }

        proof {
            assert forall|x: int| 0 <= x < g.len() implies order@.contains(x) by {
                assert(visited@[x] && !rec_stack@[x]);
            }
            lemma_order_acyclic(g, order@);
        }
        Ok(())
    }

    /// One depth-first visit. Marks the node, walks its edges in field
    /// order, and reports a cycle as soon as an edge reaches a node on the
    /// active path.
    #[verifier::rlimit(100)]
    #[verifier::spinoff_prover]
    fn dfs(
        &self,
        node: usize,
        visited: &mut Vec<bool>,
        rec_stack: &mut Vec<bool>,
        path: &mut Vec<usize>,
        order: Ghost<Seq<int>>,
    ) -> (r: (Result<(), String>, Ghost<Seq<int>>))
        requires
            self.wf(),
            spec_dfs_inv(self.spec_graph(), old(visited)@, old(rec_stack)@, old(path)@, order@),
            0 <= (node as int) < self.spec_graph().len(),
            !old(visited)@[node as int],
            old(path)@.len() > 0 ==> spec_edge(
                self.spec_graph(),
                old(path)@.last() as int,
                node as int,
            ),
        ensures
            spec_dfs_inv(
                self.spec_graph(),
                final(visited)@,
                final(rec_stack)@,
                final(path)@,
                r.1@,
            ),
            final(visited)@.len() == old(visited)@.len(),
            forall|x: int|
                0 <= x < old(visited)@.len() && old(visited)@[x] ==> #[trigger] final(visited)@[x],
            final(visited)@[node as int],
            r.0 is Ok ==> final(rec_stack)@ == old(rec_stack)@,
            r.0 is Ok ==> final(path)@ == old(path)@,
            r.0 is Err ==> spec_has_cycle(self.spec_graph()),
            r.0 is Err ==> spec_cycle_error(self.spec_graph(), self.spec_names(), r.0->Err_0@),
        decreases self.spec_graph().len() - count_true(old(visited)@),
    {
        let ghost mut ordv: Seq<int> = order@;
        let ghost g = self.spec_graph();
        proof {
            lemma_count_update(old(visited)@, node as int);
        }
        visited[node] = true;
        rec_stack[node] = true;
        path.push(node);
        proof {
            assert(old(path)@.push(node).drop_last() =~= old(path)@);
            let p0 = old(path)@;
            let p1 = path@;
            let rec1 = rec_stack@;
            assert(p1 == p0.push(node));
            assert forall|x: int|
                0 <= x < g.len() implies (rec1[x] <==> exists|k: int|
                0 <= k < p1.len() && ((#[trigger] p1[k]) as int) == x) by {
                if x == node as int {
                    assert((p1[p1.len() - 1]) as int == x);
                } else {
                    if rec1[x] {
                        let k = choose|k: int| 0 <= k < p0.len() && ((#[trigger] p0[k]) as int) == x;
                        assert((p1[k]) as int == x);
                    }
                    if exists|k: int| 0 <= k < p1.len() && ((#[trigger] p1[k]) as int) == x {
                        let k = choose|k: int|
                            0 <= k < p1.len() && ((#[trigger] p1[k]) as int) == x;
                        assert(k < p1.len() - 1);
                        assert((p0[k]) as int == x);
                    }
                }
            }
            assert forall|k: int|
                0 <= k < p1.len() - 1 implies spec_edge(g, ((#[trigger] p1[k]) as int), p1[k
                + 1] as int) by {
                if k < p0.len() - 1 {
                    assert(p1[k] == p0[k]);
                    assert(p1[k + 1] == p0[k + 1]);
                } else {
                    assert(p1[k] == p0[p0.len() - 1]);
                    assert((p1[k + 1]) as int == node as int);
                }
            }
            let ord = ordv;
            assert forall|a: int|
                0 <= a < ord.len() implies visited@[#[trigger] ord[a]] && !rec1[ord[a]] by {
                assert(old(visited)@[ord[a]]);
                assert(ord[a] != node as int);
            }
            assert forall|x: int|
                0 <= x < g.len() && visited@[x] && !rec1[x] implies ord.contains(x) by {
                assert(x != node as int);
                assert(old(visited)@[x] && !old(rec_stack)@[x]);
            }
        }

        let edge_count = self.graph[node].len();
        let mut k: usize = 0;
        while k < edge_count
            invariant
                g == self.spec_graph(),
                self.wf(),
                0 <= (node as int) < g.len(),
                edge_count == g[node as int].len(),
                0 <= k <= edge_count,
                spec_dfs_inv(g, visited@, rec_stack@, path@, ordv),
                visited@.len() == old(visited)@.len(),
                forall|x: int|
                    0 <= x < old(visited)@.len() && old(visited)@[x] ==> #[trigger] visited@[x],
                visited@[node as int],
                !old(visited)@[node as int],
                rec_stack@ == old(rec_stack)@.update(node as int, true),
                path@ == old(path)@.push(node),
                forall|m: int|
                    0 <= m < k ==> visited@[#[trigger] g[node as int][m]] && !rec_stack@[g[node
                        as int][m]],
            decreases edge_count - k,
        {
            let neighbor = self.graph[node][k];
            proof {
                assert(g[node as int][k as int] == neighbor as int);
                assert(spec_edge(g, node as int, neighbor as int)) by {
                    assert(g[node as int][k as int] == neighbor as int);
                }
            }
            if !visited[neighbor] {
                proof {
                    lemma_count_update(old(visited)@, node as int);
                    lemma_count_monotone(old(visited)@.update(node as int, true), visited@);
                    lemma_count_bounds(visited@);
                    assert(path@.last() == node);
                }
                let rr = self.dfs(neighbor, visited, rec_stack, path, Ghost(ordv));
                proof {
                    ordv = rr.1@;
                }
                match rr.0 {
                    Ok(()) => {},
                    Err(e) => {
                        return (Err(e), Ghost(ordv));
                    },
                }
            } else {
                let on_stack = rec_stack[neighbor];
                if on_stack {
                    // A back edge: the segment of the active path from the
                    // earlier occurrence of `neighbor` to `node`, closed by
                    // this edge, is a cycle.
                    proof {
                        assert(exists|m: int|
                            0 <= m < path@.len() && (#[trigger] path@[m]) == neighbor);
                    }
                    let msg = self.report_cycle(path, node, neighbor);
                    return (Err(msg), Ghost(ordv));
                }
            }
            k = k + 1;
        }

        // Backtrack: the node leaves the active path and is finished.
        let ghost rec_exit = old(rec_stack)@.update(node as int, true);
        let ghost prev_order = ordv;
        path.pop();
        proof {
            assert(old(path)@.push(node).drop_last() =~= old(path)@);
            assert(path@ == old(path)@);
        }
        rec_stack[node] = false;
        proof {
            assert(rec_exit.update(node as int, false) =~= old(rec_stack)@) by {
                assert(!old(rec_stack)@[node as int]);
            }
            assert(rec_stack@ == old(rec_stack)@);
        }
        proof {
            ordv = ordv + seq![node as int];
        }
        proof {
            assert(spec_dfs_inv(g, visited@, rec_exit, old(path)@.push(node), prev_order));
            assert(spec_order_ok(g, prev_order));
            let no = ordv;
            assert(no.len() == prev_order.len() + 1);
            assert(no[no.len() - 1] == node as int);
            assert forall|a: int| 0 <= a < prev_order.len() implies no[a] == prev_order[a] by {}
            assert forall|a: int| 0 <= a < no.len() implies 0 <= #[trigger] no[a] < g.len() by {
                if a < prev_order.len() {
                    assert(no[a] == prev_order[a]);
                    assert(0 <= prev_order[a] < g.len());
                } else {
                    assert(no[a] == node as int);
                }
            }
            assert forall|a: int|
                0 <= a < prev_order.len() implies prev_order[a] != node as int by {
                assert(!rec_exit[prev_order[a]]);
                assert(rec_exit[node as int]);
            }
            assert forall|a: int, b: int| 0 <= a < b < no.len() implies no[a] != no[b] by {
                if b == no.len() - 1 {
                    assert(no[a] == prev_order[a]);
                    assert(no[b] == node as int);
                } else {
                    assert(no[a] == prev_order[a]);
                    assert(no[b] == prev_order[b]);
                }
            }
            assert forall|x: int|
                0 <= x < g.len() && visited@[x] && !rec_stack@[x] implies no.contains(x) by {
                if x == node as int {
                    assert(no[no.len() - 1] == x);
                } else {
                    assert(!rec_exit[x]);
                    assert(prev_order.contains(x));
                    let a = choose|a: int| 0 <= a < prev_order.len() && prev_order[a] == x;
                    assert(no[a] == x);
                }
            }
            assert forall|a: int|
                0 <= a < no.len() implies visited@[#[trigger] no[a]] && !rec_stack@[no[a]] by {
                if a < prev_order.len() {
                    assert(no[a] == prev_order[a]);
                    assert(!rec_exit[no[a]]);
                    assert(no[a] != node as int);
                } else {
                    assert(no[a] == node as int);
                    assert(!old(rec_stack)@[node as int]);
                }
            }
            assert forall|a: int, y: int|
                0 <= a < no.len() && #[trigger] g[no[a]].contains(y) implies exists|a2: int|
                0 <= a2 < a && no[a2] == y by {
                if a < prev_order.len() {
                    assert(no[a] == prev_order[a]);
                    assert(g[prev_order[a]].contains(y));
                    lemma_order_step(g, prev_order, a, y);
                    let a2 = choose|a2: int| 0 <= a2 < a && prev_order[a2] == y;
                    assert(no[a2] == y);
                } else {
                    // the new entry: every neighbor of `node` is finished,
                    // hence somewhere in the earlier part of the order
                    assert(no[a] == node as int);
                    let k2 = choose|k: int|
                        0 <= k < g[node as int].len() && g[node as int][k] == y;
                    assert(g[node as int][k2] == y);
                    assert(visited@[y] && !rec_exit[y]);
                    assert(prev_order.contains(y));
                    let a2 = choose|a2: int| 0 <= a2 < prev_order.len() && prev_order[a2] == y;
                    assert(no[a2] == y);
                }
            }
        }
        (Ok(()), Ghost(ordv))
    }

    /// Render the cycle closed by the back edge from `node` to `neighbor`:
    /// the chain of resource names from `neighbor`'s place on the active
    /// path to `node`, closed on `neighbor` again.
    fn report_cycle(&self, path: &Vec<usize>, node: usize, neighbor: usize) -> (msg: String)
        requires
            self.wf(),
            path@.len() > 0,
            path@[path@.len() - 1] == node,
            forall|k: int| 0 <= k < path@.len() ==> ((#[trigger] path@[k]) as int) < self.spec_graph().len(),
            forall|k: int|
                0 <= k < path@.len() - 1 ==> spec_edge(
                    self.spec_graph(),
                    (#[trigger] path@[k]) as int,
                    path@[k + 1] as int,
                ),
            exists|m: int| 0 <= m < path@.len() && (#[trigger] path@[m]) == neighbor,
            spec_edge(self.spec_graph(), node as int, neighbor as int),
            (neighbor as int) < self.spec_graph().len(),
        ensures
            spec_has_cycle(self.spec_graph()),
            spec_cycle_error(self.spec_graph(), self.spec_names(), msg@),
    {
        let ghost g = self.spec_graph();
        // Find where the cycle starts on the path.
        let mut cs: usize = 0;
        loop
            invariant
                g == self.spec_graph(),
                self.wf(),
                path@.len() > 0,
                path@[path@.len() - 1] == node,
                0 <= cs <= path@.len(),
                forall|m: int| 0 <= m < cs ==> path@[m] != neighbor,
                exists|m: int| 0 <= m < path@.len() && (#[trigger] path@[m]) == neighbor,
                forall|m: int|
                    0 <= m < path@.len() ==> ((#[trigger] path@[m]) as int) < g.len(),
            ensures
                0 <= cs < path@.len(),
                path@[cs as int] == neighbor,
            decreases path@.len() - cs,
        {
            if cs < path.len() {
                if path[cs] == neighbor {
                    break ;
                }
                cs = cs + 1;
            } else {
                // Unreachable: `neighbor` is on the path, so the scan finds
                // it before running out.
                proof {
                    let m = choose|m: int| 0 <= m < path@.len() && (path@[m]) == neighbor;
                    assert(false);
                }
            }
        }
        let ghost pm = path@.map(|q: int, e: usize| e as int);
        let ghost cyc = pm.subrange(cs as int, pm.len() as int) + seq![neighbor as int];
        let ghost names = self.spec_names();
        proof {
            assert(cyc[0] == neighbor as int);
            assert(cyc[cyc.len() - 1] == neighbor as int);
            assert(pm[pm.len() - 1] == node as int);
            assert forall|q: int| 0 <= q < cyc.len() - 1 implies spec_edge(
                g,
                #[trigger] cyc[q],
                cyc[q + 1],
            ) by {
                if q < cyc.len() - 2 {
                    assert(cyc[q] == pm[cs + q]);
                    assert(cyc[q + 1] == pm[cs + q + 1]);
                    assert(spec_edge(g, path@[cs + q] as int, path@[cs + q + 1] as int));
                } else {
                    assert(cyc[q] == pm[pm.len() - 1]);
                    assert(cyc[q] == node as int);
                    assert(spec_edge(g, node as int, neighbor as int));
                }
            }
            assert(spec_is_cycle(g, cyc));
            assert forall|q: int|
                cs <= q < path@.len() implies cyc[q - cs] == ((#[trigger] path@[q]) as int) by {
                assert(pm[q] == path@[q] as int);
            }
            assert forall|q: int|
                0 <= q < cyc.len() implies 0 <= #[trigger] cyc[q] < names.len() by {
                if q < cyc.len() - 1 {
                    assert(cyc[q] == path@[cs + q] as int);
                }
            }
        }
        // Name the chain.
        let mut msg = "Cyclic dependency detected: ".to_owned();
        proof {
            assert(msg@ =~= "Cyclic dependency detected: "@ + spec_chain(names, cyc, 0));
        }
        let mut m: usize = cs;
        while m < path.len()
            invariant
                g == self.spec_graph(),
                names == self.spec_names(),
                self.wf(),
                0 <= cs <= m <= path@.len(),
                cs < path@.len(),
                cyc.len() == path@.len() - cs + 1,
                forall|q: int|
                    cs <= q < path@.len() ==> cyc[q - cs] == ((#[trigger] path@[q]) as int),
                forall|q: int| 0 <= q < cyc.len() ==> 0 <= #[trigger] cyc[q] < names.len(),
                forall|q: int|
                    0 <= q < path@.len() ==> ((#[trigger] path@[q]) as int) < g.len(),
                msg@ == "Cyclic dependency detected: "@ + spec_chain(names, cyc, m - cs),
            decreases path@.len() - m,
        {
            if m > cs {
                msg.append(" \u{2192} ");
            }
            msg.append(self.resource_names[path[m]].as_str());
            proof {
                let q = m - cs;
                assert(names[cyc[q as int]] == self.resource_names@[path@[m as int] as int]@);
                if m > cs {
                    assert(msg@ =~= "Cyclic dependency detected: "@ + (spec_chain(
                        names,
                        cyc,
                        q as int,
                    ) + " \u{2192} "@ + names[cyc[q as int]]));
                } else {
                    assert(msg@ =~= "Cyclic dependency detected: "@ + names[cyc[0]]);
                }
            }
            m = m + 1;
        }
        msg.append(" \u{2192} ");
        msg.append(self.resource_names[neighbor].as_str());
        proof {
            let q = cyc.len() - 1;
            assert(names[cyc[q]] == self.resource_names@[neighbor as int]@);
            assert(msg@ =~= "Cyclic dependency detected: "@ + (spec_chain(names, cyc, q)
                + " \u{2192} "@ + names[cyc[q]]));
            assert(msg@ == spec_cycle_message(names, cyc));
            lemma_cycle_error(g, names, msg@, cyc);
        }
        msg
    }
}

/// Every entry of the sequence is a node index below `n`.
pub open spec fn spec_refs_in_range(s: Seq<int>, n: int) -> bool {
    forall|k: int| 0 <= k < s.len() ==> 0 <= #[trigger] s[k] < n
}

/// Range of the references collected from the fields, given the resolver's
/// guarantee on each field type.
proof fn lemma_field_refs_range(fields: Seq<IRField>, i: int, n: int)
    requires
        forall|j: int| 0 <= j < fields.len() ==> spec_type_refs_ok((#[trigger] fields[j]).field_type, n),
        0 <= n,
    ensures
        spec_refs_in_range(spec_field_refs(fields, i), n),
    decreases fields.len() - i,
{
    if 0 <= i < fields.len() {
        lemma_type_refs_range(fields[i].field_type, n);
        lemma_field_refs_range(fields, i + 1, n);
        let s = spec_field_refs(fields, i);
        let t = spec_type_refs(fields[i].field_type);
        let rest = spec_field_refs(fields, i + 1);
        assert forall|k: int| 0 <= k < s.len() implies 0 <= #[trigger] s[k] < n by {
            if k < t.len() {
                assert(s[k] == t[k]);
            } else {
                assert(s[k] == rest[k - t.len()]);
            }
        }
    }
}

proof fn lemma_type_refs_range(t: IRType, n: int)
    requires
        spec_type_refs_ok(t, n),
        0 <= n,
    ensures
        spec_refs_in_range(spec_type_refs(t), n),
    decreases t,
{
    match t {
        IRType::Primitive(_) => {},
        IRType::ResourceRef(_) => {},
        IRType::List(inner) => {
            lemma_type_refs_range(*inner, n);
        },
    }
}

/// Updating a `false` entry to `true` raises the count by one.
proof fn lemma_count_update(s: Seq<bool>, i: int)
    requires
        0 <= i < s.len(),
        !s[i],
    ensures
        count_true(s.update(i, true)) == count_true(s) + 1,
    decreases s.len(),
{
    if s.len() > 0 {
        if i == s.len() - 1 {
            assert(s.update(i, true).drop_last() =~= s.drop_last());
        } else {
            assert(s.update(i, true).drop_last() =~= s.drop_last().update(i, true));
            lemma_count_update(s.drop_last(), i);
        }
    }
}

/// The count lies between zero and the length.
proof fn lemma_count_bounds(s: Seq<bool>)
    ensures
        0 <= count_true(s) <= s.len(),
    decreases s.len(),
{
    if s.len() > 0 {
        lemma_count_bounds(s.drop_last());
    }
}

/// Pointwise implication of `true` entries bounds the counts.
proof fn lemma_count_monotone(s1: Seq<bool>, s2: Seq<bool>)
    requires
        s1.len() == s2.len(),
        forall|x: int| 0 <= x < s1.len() && s1[x] ==> s2[x],
    ensures
        count_true(s1) <= count_true(s2),
    decreases s1.len(),
{
    if s1.len() > 0 {
        assert(s1.last() ==> s2.last());
        lemma_count_monotone(s1.drop_last(), s2.drop_last());
    }
}

/// Ground instantiation of the neighbors-earlier clause of a finish order.
proof fn lemma_order_step(g: Seq<Seq<int>>, order: Seq<int>, a: int, y: int)
    requires
        spec_order_ok(g, order),
        0 <= a < order.len(),
        g[order[a]].contains(y),
    ensures
        exists|a2: int| 0 <= a2 < a && order[a2] == y,
{
}

/// The position of a node in a duplicate-free order.
pub open spec fn spec_pos(order: Seq<int>, x: int) -> int {
    choose|a: int| 0 <= a < order.len() && order[a] == x
}

/// In a duplicate-free order where every neighbor of a listed node is
/// listed strictly earlier, an edge always leads strictly backwards.
proof fn lemma_edge_pos(g: Seq<Seq<int>>, order: Seq<int>, x: int, y: int)
    requires
        spec_order_ok(g, order),
        forall|x0: int| 0 <= x0 < g.len() ==> order.contains(x0),
        spec_wf_graph(g),
        spec_edge(g, x, y),
    ensures
        0 <= spec_pos(order, x) < order.len(),
        order[spec_pos(order, x)] == x,
        0 <= spec_pos(order, y) < order.len(),
        order[spec_pos(order, y)] == y,
        spec_pos(order, y) < spec_pos(order, x),
{
    assert(order.contains(x));
    assert(0 <= y < g.len()) by {
        let k = choose|k: int| 0 <= k < g[x].len() && g[x][k] == y;
        assert(g[x][k] == y);
    }
    assert(order.contains(y));
    let a = spec_pos(order, x);
    assert(0 <= a < order.len() && order[a] == x);
    let ay = spec_pos(order, y);
    assert(0 <= ay < order.len() && order[ay] == y);
    assert(g[order[a]].contains(y));
    lemma_order_step(g, order, a, y);
    let a2 = choose|a2: int| 0 <= a2 < a && order[a2] == y;
    assert(a2 == ay) by {
        if a2 < ay {
            assert(order[a2] != order[ay]);
        } else if ay < a2 {
            assert(order[ay] != order[a2]);
        }
    }
}

/// Along any walk of such an order, positions strictly decrease; hence no
/// walk returns to its start.
proof fn lemma_walk_pos(g: Seq<Seq<int>>, order: Seq<int>, p: Seq<int>)
    requires
        spec_order_ok(g, order),
        forall|x0: int| 0 <= x0 < g.len() ==> order.contains(x0),
        spec_wf_graph(g),
        p.len() >= 2,
        forall|k: int| 0 <= k < p.len() - 1 ==> spec_edge(g, #[trigger] p[k], p[k + 1]),
    ensures
        spec_pos(order, p[p.len() - 1]) < spec_pos(order, p[0]),
    decreases p.len(),
{
    assert(spec_edge(g, p[0], p[1]));
    lemma_edge_pos(g, order, p[0], p[1]);
    if p.len() == 2 {
    } else {
        let q = p.drop_first();
        assert forall|k: int| 0 <= k < q.len() - 1 implies spec_edge(g, #[trigger] q[k], q[k + 1])
        by {
            assert(q[k] == p[k + 1]);
            assert(q[k + 1] == p[k + 2]);
            assert(spec_edge(g, p[k + 1], p[k + 2]));
        }
        lemma_walk_pos(g, order, q);
        assert(q[q.len() - 1] == p[p.len() - 1]);
        assert(q[0] == p[1]);
    }
}

/// A graph all of whose nodes stand in such an order has no cycle.
proof fn lemma_order_acyclic(g: Seq<Seq<int>>, order: Seq<int>)
    requires
        spec_order_ok(g, order),
        forall|x0: int| 0 <= x0 < g.len() ==> order.contains(x0),
        spec_wf_graph(g),
    ensures
        !spec_has_cycle(g),
{
    if spec_has_cycle(g) {
        let p = choose|p: Seq<int>| spec_is_cycle(g, p);
        lemma_walk_pos(g, order, p);
        assert(p[0] == p[p.len() - 1]);
        assert(false);
    }
}

} // verus!
