//! Formula dependencies: validation, cycles, and evaluation order.

use crate::expressions::{divides_by_literal_zero, has_literal_div_by_zero, refers_to, Expr};
use crate::text::{compare_text, list_contains, lists_text, same_text, text_order, texts, Order};
use vstd::prelude::*;
use vstd::string::StringExecFns;

verus! {

/// An error that a query reports as a whole.
#[derive(Debug, PartialEq, Eq)]
pub struct QueryError {
    pub code: String,
    pub message: String,
}

/// What went wrong when an expression was evaluated.
#[derive(Debug, PartialEq, Eq)]
pub struct EvaluationError {
    pub code: String,
    pub message: String,
}

/// One named formula: its parse result, and the error of evaluating it without
/// a record, if that gave one.
#[derive(Debug)]
pub struct Formula {
    pub name: String,
    pub parsed: Result<Expr, String>,
    pub static_error: Option<EvaluationError>,
}

/// Formulas in ascending order of their distinct names.
#[derive(Debug)]
pub struct Formulas {
    pub items: Vec<Formula>,
}

impl Formulas {
    /// Names are distinct and ascending.
    pub open spec fn wf(&self) -> bool {
        forall|i: int, j: int|
            0 <= i < j < self.items@.len() ==> text_order(
                (#[trigger] self.items@[i]).name@,
                (#[trigger] self.items@[j]).name@,
            ) == Order::Less
    }

    /// No formulas.
    pub fn new() -> (result: Formulas)
        ensures
            result.wf(),
            result.items@.len() == 0,
    {
        Formulas { items: Vec::new() }
    }

    /// The number of formulas with smaller names.
    pub open spec fn place(&self, name: Seq<char>) -> int
        recommends
            self.wf(),
    {
        choose|at: int| #[trigger] self.is_place(name, at)
    }

    pub open spec fn is_place(&self, name: Seq<char>, at: int) -> bool {
        &&& 0 <= at <= self.items@.len()
        &&& forall|k: int|
            0 <= k < at ==> text_order((#[trigger] self.items@[k]).name@, name) == Order::Less
        &&& forall|k: int|
            at <= k < self.items@.len() ==> text_order((#[trigger] self.items@[k]).name@, name)
                != Order::Less
    }

    /// Adds a formula in its place, instead of one with the same name.
    pub fn insert(&mut self, formula: Formula)
        requires
            old(self).wf(),
        ensures
            final(self).wf(),
            ({
                let at = old(self).place(formula.name@);
                if at < old(self).items@.len() && old(self).items@[at].name@ == formula.name@ {
                    final(self).items@ == old(self).items@.update(at, formula)
                } else {
                    final(self).items@ == old(self).items@.insert(at, formula)
                }
            }),
    {
        let ghost before = *self;
        let mut at: usize = 0;
        while at < self.items.len() && compare_text(
            self.items[at].name.as_str(),
            formula.name.as_str(),
        ).is_lt()
            invariant
                at <= self.items@.len(),
                *self == before,
                forall|k: int|
                    0 <= k < at ==> text_order(
                        (#[trigger] before.items@[k]).name@,
                        formula.name@,
                    ) == Order::Less,
            decreases self.items@.len() - at,
        {
            at = at + 1;
        }
        proof {
            let name = formula.name@;
            assert forall|k: int| at <= k < before.items@.len() implies text_order(
                (#[trigger] before.items@[k]).name@,
                name,
            ) != Order::Less by {
                if k > at {
                    assert(text_order(before.items@[at as int].name@, before.items@[k].name@)
                        == Order::Less);
                    if text_order(before.items@[k].name@, name) == Order::Less {
                        crate::text::lemma_text_order_transitive(
                            before.items@[at as int].name@,
                            before.items@[k].name@,
                            name,
                        );
                    }
                }
            }
            assert(before.is_place(name, at as int));
            let chosen = before.place(name);
            assert(before.is_place(name, chosen));
            if chosen < at {
                assert(text_order(before.items@[chosen].name@, name) == Order::Less);
            }
            if at < chosen {
                assert(text_order(before.items@[at as int].name@, name) == Order::Less);
            }
            if at < before.items@.len() {
                crate::text::lemma_text_order_equal(before.items@[at as int].name@, name);
                crate::text::lemma_text_order_reverse(before.items@[at as int].name@, name);
            }
        }
        let replaces = at < self.items.len() && crate::text::same_text(
            self.items[at].name.as_str(),
            formula.name.as_str(),
        );
        if replaces {
            let _replaced = self.items.remove(at);
        }
        self.items.insert(at, formula);
        proof {
            let name = formula.name@;
            if replaces {
                assert(self.items@ =~= before.items@.update(at as int, formula));
            } else {
                assert(self.items@ =~= before.items@.insert(at as int, formula));
            }
            assert forall|i: int, j: int| 0 <= i < j < self.items@.len() implies text_order(
                (#[trigger] self.items@[i]).name@,
                (#[trigger] self.items@[j]).name@,
            ) == Order::Less by {
                if replaces {
                    assert(self.items@[i].name@ == before.items@[i].name@);
                    assert(self.items@[j].name@ == before.items@[j].name@);
                } else if j == at {
                    assert(self.items@[i] == before.items@[i]);
                } else if i == at {
                    assert(self.items@[j] == before.items@[j - 1]);
                    let other = before.items@[j - 1].name@;
                    assert(text_order(other, name) != Order::Less);
                    crate::text::lemma_text_order_reverse(other, name);
                    crate::text::lemma_text_order_equal(other, name);
                    if other == name {
                        if j - 1 > at {
                            assert(text_order(before.items@[at as int].name@, other)
                                == Order::Less);
                        }
                    }
                } else {
                    let a = if i < at { i } else { i - 1 };
                    let b = if j < at { j } else { j - 1 };
                    assert(self.items@[i] == before.items@[a]);
                    assert(self.items@[j] == before.items@[b]);
                }
            }
        }
    }

    /// Whether the formula at a position refers to the one at another.
    pub open spec fn depends(&self, from: int, to: int) -> bool {
        from != to && match self.items@[from].parsed {
            Ok(expression) => refers_to(expression, self.items@[to].name@),
            Err(_) => false,
        }
    }

    /// For each formula, the positions of the formulas it depends on.
    pub open spec fn is_dependency_list(&self, graph: Seq<Vec<usize>>) -> bool {
        &&& graph.len() == self.items@.len()
        &&& forall|i: int| 0 <= i < graph.len() ==> self.lists_dependencies(i, #[trigger] graph[i])
    }

    /// The positions a formula depends on, each once and ascending.
    pub open spec fn lists_dependencies(&self, from: int, list: Vec<usize>) -> bool {
        &&& forall|k: int| 0 <= k < list@.len() ==> (#[trigger] list@[k]) < self.items@.len()
        &&& forall|k: int, m: int| 0 <= k < m < list@.len() ==> list@[k] < list@[m]
        &&& forall|to: usize|
            to < self.items@.len() ==> (list@.contains(to) <==> #[trigger] self.depends(
                from,
                to as int,
            ))
    }
}

/// The distinct names of the formulas that an expression refers to.
pub fn extract_formula_refs(expression: &Expr) -> (result: Vec<String>)
    ensures
        texts(result@).no_duplicates(),
        forall|name: Seq<char>| #[trigger]
            lists_text(result@, name) <==> refers_to(*expression, name),
{
    let mut refs: Vec<String> = Vec::new();
    extract_formula_refs_into(expression, &mut refs);
    refs
}

fn add_ref(refs: &mut Vec<String>, name: &str)
    ensures
        texts(old(refs)@).no_duplicates() ==> texts(final(refs)@).no_duplicates(),
        forall|other: Seq<char>| #[trigger]
            lists_text(final(refs)@, other) <==> lists_text(old(refs)@, other) || other == name@,
{
    if !list_contains(refs, name) {
        let ghost before = refs@;
        refs.push(name.to_owned());
        proof {
            let after = refs@;
            crate::text::lemma_texts_push(before, after.last());
            assert(after.drop_last() =~= before);
            assert forall|other: Seq<char>| #[trigger]
                lists_text(after, other) <==> lists_text(before, other) || other == name@ by {
                if lists_text(before, other) {
                    let i = choose|i: int| 0 <= i < before.len() && (#[trigger] before[i])@ == other;
                    assert(after[i]@ == other);
                }
                if other == name@ {
                    assert(after[before.len() as int]@ == other);
                }
                if lists_text(after, other) {
                    let i = choose|i: int| 0 <= i < after.len() && (#[trigger] after[i])@ == other;
                    if i < before.len() {
                        assert(before[i]@ == other);
                    }
                }
            }
            if texts(before).no_duplicates() {
                assert forall|i: int, j: int|
                    0 <= i < texts(after).len() && 0 <= j < texts(after).len() && i
                        != j implies texts(after)[i] != texts(after)[j] by {
                    if i < before.len() && j < before.len() {
                        assert(texts(before)[i] == texts(after)[i]);
                        assert(texts(before)[j] == texts(after)[j]);
                    } else if i < before.len() {
                        assert(before[i]@ != name@);
                    } else {
                        assert(before[j]@ != name@);
                    }
                }
            }
        }
    }
}

/// Adds the names that an expression refers to, each once.
pub fn extract_formula_refs_into(expression: &Expr, refs: &mut Vec<String>)
    ensures
        texts(old(refs)@).no_duplicates() ==> texts(final(refs)@).no_duplicates(),
        forall|name: Seq<char>| #[trigger]
            lists_text(final(refs)@, name) <==> lists_text(old(refs)@, name) || refers_to(
                *expression,
                name,
            ),
    decreases expression,
{
    match expression {
        Expr::Dot(object, field) => {
            if let Expr::Ident(name) = &**object {
                if same_text(name.as_str(), "formula") {
                    add_ref(refs, field.as_str());
                }
            }
            extract_formula_refs_into(object, refs);
        },
        Expr::Index(object, index) => {
            if let Expr::Ident(name) = &**object {
                if same_text(name.as_str(), "formula") {
                    if let Expr::Str(field) = &**index {
                        add_ref(refs, field.as_str());
                    }
                }
            }
            extract_formula_refs_into(object, refs);
            extract_formula_refs_into(index, refs);
        },
        Expr::BinOp(left, _, right) => {
            extract_formula_refs_into(left, refs);
            extract_formula_refs_into(right, refs);
        },
        Expr::UnaryOp(_, inner) => {
            extract_formula_refs_into(inner, refs);
        },
        Expr::NullCoalesce(left, right) => {
            extract_formula_refs_into(left, refs);
            extract_formula_refs_into(right, refs);
        },
        Expr::Call(base, arguments) => {
            extract_formula_refs_into(base, refs);
            extract_list_refs_into(arguments, refs);
        },
        Expr::Conditional(condition, positive, negative) => {
            extract_formula_refs_into(condition, refs);
            extract_formula_refs_into(positive, refs);
            extract_formula_refs_into(negative, refs);
        },
        Expr::Array(items) => {
            extract_list_refs_into(items, refs);
        },
        _ => {},
    }
}

fn extract_list_refs_into(items: &Vec<Expr>, refs: &mut Vec<String>)
    ensures
        texts(old(refs)@).no_duplicates() ==> texts(final(refs)@).no_duplicates(),
        forall|name: Seq<char>| #[trigger]
            lists_text(final(refs)@, name) <==> lists_text(old(refs)@, name) || exists|i: int|
                0 <= i < items@.len() && refers_to(#[trigger] items@[i], name),
    decreases items,
{
    let mut i: usize = 0;
    while i < items.len()
        invariant
            i <= items@.len(),
            texts(old(refs)@).no_duplicates() ==> texts(refs@).no_duplicates(),
            forall|name: Seq<char>| #[trigger]
                lists_text(refs@, name) <==> lists_text(old(refs)@, name) || exists|k: int|
                    0 <= k < i && refers_to(#[trigger] items@[k], name),
        decreases items@.len() - i,
    {
        let ghost before = refs@;
        extract_formula_refs_into(&items[i], refs);
        proof {
            assert forall|name: Seq<char>| #[trigger]
                lists_text(refs@, name) <==> lists_text(old(refs)@, name) || exists|k: int|
                    0 <= k < i + 1 && refers_to(#[trigger] items@[k], name) by {
                assert(lists_text(refs@, name) <==> lists_text(before, name) || refers_to(
                    items@[i as int],
                    name,
                ));
                if exists|k: int| 0 <= k < i + 1 && refers_to(#[trigger] items@[k], name) {
                    let k = choose|k: int|
                        0 <= k < i + 1 && refers_to(#[trigger] items@[k], name);
                    if k < i {
                        assert(exists|k: int| 0 <= k < i && refers_to(#[trigger] items@[k], name));
                    }
                }
            }
        }
        i = i + 1;
    }
}

/// Consecutive nodes are joined by edges.
pub open spec fn is_walk(graph: Seq<Vec<usize>>, nodes: Seq<usize>) -> bool {
    &&& forall|k: int| 0 <= k < nodes.len() ==> (#[trigger] nodes[k]) < graph.len()
    &&& forall|k: int, m: int|
        #![trigger nodes[k], nodes[m]]
        0 <= k && m == k + 1 && m < nodes.len() ==> graph[nodes[k] as int]@.contains(nodes[m])
}

/// Some walk of at least one edge comes back to where it began.
pub open spec fn has_cycle(graph: Seq<Vec<usize>>) -> bool {
    exists|nodes: Seq<usize>| #[trigger]
        is_walk(graph, nodes) && nodes.len() >= 2 && nodes[0] == nodes.last()
}

/// Some walk from a node comes back to a node it has passed.
pub open spec fn meets_cycle(graph: Seq<Vec<usize>>, from: usize) -> bool {
    exists|nodes: Seq<usize>| #[trigger]
        is_walk(graph, nodes) && nodes.len() >= 2 && nodes[0] == from
            && nodes.drop_last().contains(nodes.last())
}

/// A cycle is met from some node exactly when there is one.
pub proof fn lemma_cycle_met(graph: Seq<Vec<usize>>)
    ensures
        has_cycle(graph) <==> exists|from: usize|
            from < graph.len() && #[trigger] meets_cycle(graph, from),
{
    if has_cycle(graph) {
        let nodes = choose|nodes: Seq<usize>| #[trigger]
            is_walk(graph, nodes) && nodes.len() >= 2 && nodes[0] == nodes.last();
        assert(nodes.drop_last()[0] == nodes.last());
        assert(meets_cycle(graph, nodes[0]));
    }
    if exists|from: usize| from < graph.len() && #[trigger] meets_cycle(graph, from) {
        let from = choose|from: usize| from < graph.len() && #[trigger] meets_cycle(graph, from);
        let nodes = choose|nodes: Seq<usize>| #[trigger]
            is_walk(graph, nodes) && nodes.len() >= 2 && nodes[0] == from
                && nodes.drop_last().contains(nodes.last());
        let k = choose|k: int|
            0 <= k < nodes.drop_last().len() && nodes.drop_last()[k] == nodes.last();
        lemma_walk_skip(graph, nodes, k);
        assert(nodes.skip(k)[0] == nodes.skip(k).last());
    }
}

proof fn lemma_walk_skip(graph: Seq<Vec<usize>>, nodes: Seq<usize>, k: int)
    requires
        is_walk(graph, nodes),
        0 <= k <= nodes.len(),
    ensures
        is_walk(graph, nodes.skip(k)),
{
    let rest = nodes.skip(k);
    assert forall|i: int, m: int|
        #![trigger rest[i], rest[m]]
        0 <= i && m == i + 1 && m < rest.len() implies graph[rest[i] as int]@.contains(rest[m]) by {
        assert(rest[i] == nodes[k + i]);
        assert(rest[m] == nodes[k + m]);
    }
}

/// Every edge leads to a node.
pub open spec fn edges_in_range(graph: Seq<Vec<usize>>) -> bool {
    forall|i: int, k: int|
        0 <= i < graph.len() && 0 <= k < graph[i]@.len() ==> (#[trigger] graph[i]@[k])
            < graph.len()
}

/// Every node of the list comes after all the nodes its edges lead to.
pub open spec fn follows_edges(graph: Seq<Vec<usize>>, order: Seq<usize>) -> bool {
    forall|k: int, to: usize|
        0 <= k < order.len() && #[trigger] graph[order[k] as int]@.contains(to)
            ==> #[trigger] order.take(k).contains(to)
}

/// The list after a depth-first visit of a node: the nodes it leads to come
/// first, in the order of its edges, then the node. Nodes already listed, and
/// those whose visit is under way, are passed over.
pub open spec fn visited(
    graph: Seq<Vec<usize>>,
    node: usize,
    active: Seq<usize>,
    order: Seq<usize>,
    fuel: nat,
) -> Seq<usize>
    decreases fuel, 0nat,
{
    if fuel == 0 || order.contains(node) || active.contains(node) {
        order
    } else {
        children_visited(
            graph,
            node,
            graph[node as int]@.len(),
            active.push(node),
            order,
            (fuel - 1) as nat,
        ).push(node)
    }
}

/// The list after visits of the first nodes that a node leads to.
pub open spec fn children_visited(
    graph: Seq<Vec<usize>>,
    node: usize,
    count: nat,
    active: Seq<usize>,
    order: Seq<usize>,
    fuel: nat,
) -> Seq<usize>
    decreases fuel, count + 1,
{
    if count == 0 {
        order
    } else {
        visited(
            graph,
            graph[node as int]@[count - 1],
            active,
            children_visited(graph, node, (count - 1) as nat, active, order, fuel),
            fuel,
        )
    }
}

/// The list after visits of the first nodes, from an empty list.
pub open spec fn visited_up_to(graph: Seq<Vec<usize>>, count: nat) -> Seq<usize>
    decreases count,
{
    if count == 0 {
        Seq::empty()
    } else {
        visited(
            graph,
            (count - 1) as usize,
            Seq::empty(),
            visited_up_to(graph, (count - 1) as nat),
            graph.len(),
        )
    }
}

#[derive(Clone, Copy, PartialEq, Eq, Structural)]
enum Mark {
    New,
    Active,
    Done,
}

spec fn marks_match(marks: Seq<Mark>, active: Seq<usize>, order: Seq<usize>) -> bool {
    forall|i: usize|
        i < marks.len() ==> {
            &&& (#[trigger] marks[i as int] == Mark::Active) <==> active.contains(i)
            &&& (marks[i as int] == Mark::Done) <==> order.contains(i)
        }
}

/// The node at which the visits under way began.
spec fn root_of(active: Seq<usize>, node: usize) -> usize {
    if active.len() > 0 {
        active[0]
    } else {
        node
    }
}

spec fn in_range(nodes: Seq<usize>, count: nat) -> bool {
    forall|k: int| 0 <= k < nodes.len() ==> (#[trigger] nodes[k]) < count
}

proof fn lemma_distinct_bound(nodes: Seq<usize>, count: nat, missing: usize)
    requires
        nodes.no_duplicates(),
        in_range(nodes, count),
        missing < count,
        !nodes.contains(missing),
    ensures
        nodes.len() < count,
{
    let all = nodes.push(missing);
    assert(all.no_duplicates());
    all.unique_seq_to_set();
    let range = vstd::set_lib::set_int_range(0, count as int);
    vstd::set_lib::lemma_int_range(0, count as int);
    let image = all.to_set().map(|x: usize| x as int);
    assert(all.to_set().finite());
    vstd::set_lib::lemma_map_size(all.to_set(), image, |x: usize| x as int);
    assert forall|x: int| image.contains(x) implies range.contains(x) by {
        let y = choose|y: usize| all.to_set().contains(y) && y as int == x;
        assert(all.contains(y));
        let k = choose|k: int| 0 <= k < all.len() && all[k] == y;
        if k < nodes.len() {
            assert(nodes[k] < count);
        }
    }
    vstd::set_lib::lemma_len_subset(image, range);
}

/// From a node of a list that has every node after those its edges lead to,
/// no cycle is met.
pub proof fn lemma_order_rules_out_cycles(graph: Seq<Vec<usize>>, order: Seq<usize>, from: usize)
    requires
        follows_edges(graph, order),
        order.contains(from),
    ensures
        !meets_cycle(graph, from),
{
    if meets_cycle(graph, from) {
        let nodes = choose|nodes: Seq<usize>| #[trigger]
            is_walk(graph, nodes) && nodes.len() >= 2 && nodes[0] == from
                && nodes.drop_last().contains(nodes.last());
        let k = choose|k: int|
            0 <= k < nodes.drop_last().len() && nodes.drop_last()[k] == nodes.last();
        let at = lemma_positions_fall(graph, order, nodes, k);
        assert(order.contains(nodes[k]));
        let rest = nodes.skip(k);
        lemma_walk_skip(graph, nodes, k);
        lemma_positions_fall(graph, order, rest, rest.len() - 1);
        lemma_first_position(order, rest[0]);
    }
}

/// Along a walk from a listed position, the nodes stand at ever smaller positions.
proof fn lemma_positions_fall(
    graph: Seq<Vec<usize>>,
    order: Seq<usize>,
    nodes: Seq<usize>,
    steps: int,
) -> (at: int)
    requires
        follows_edges(graph, order),
        is_walk(graph, nodes),
        0 <= steps < nodes.len(),
        order.contains(nodes[0]),
    ensures
        0 <= at < order.len(),
        order[at] == nodes[steps],
        steps > 0 ==> order.take(first_position(order, nodes[0])).contains(nodes[steps]),
        steps == 0 ==> at == first_position(order, nodes[0]),
    decreases steps,
{
    lemma_first_position(order, nodes[0]);
    if steps == 0 {
        first_position(order, nodes[0])
    } else {
        lemma_positions_fall(graph, order, nodes, steps - 1);
        let first = first_position(order, nodes[0]);
        let previous = nodes[steps - 1];
        let k = if steps == 1 {
            first
        } else {
            choose|k: int| 0 <= k < first && order.take(first)[k] == previous
        };
        assert(order[k] == previous);
        assert(graph[order[k] as int]@.contains(nodes[steps]));
        assert(order.take(k).contains(nodes[steps]));
        let m = choose|m: int| 0 <= m < k && order.take(k)[m] == nodes[steps];
        assert(order.take(first)[m] == nodes[steps]);
        m
    }
}

/// The first position of a node in a list.
spec fn first_position(order: Seq<usize>, node: usize) -> int {
    choose|k: int|
        0 <= k < order.len() && order[k] == node && !(#[trigger] order.take(k)).contains(node)
}

proof fn lemma_first_position(order: Seq<usize>, node: usize)
    requires
        order.contains(node),
    ensures
        0 <= first_position(order, node) < order.len(),
        order[first_position(order, node)] == node,
        !order.take(first_position(order, node)).contains(node),
{
    let k = choose|k: int| 0 <= k < order.len() && order[k] == node;
    lemma_first_exists(order, node, k);
}

proof fn lemma_first_exists(order: Seq<usize>, node: usize, k: int)
    requires
        0 <= k < order.len(),
        order[k] == node,
    ensures
        exists|m: int|
            0 <= m < order.len() && order[m] == node && !(#[trigger] order.take(m)).contains(node),
    decreases k,
{
    if order.take(k).contains(node) {
        let m = choose|m: int| 0 <= m < k && order.take(k)[m] == node;
        lemma_first_exists(order, node, m);
    }
}

proof fn lemma_follows_push(graph: Seq<Vec<usize>>, order: Seq<usize>, node: usize)
    requires
        follows_edges(graph, order),
        forall|to: usize| #[trigger] graph[node as int]@.contains(to) ==> order.contains(to),
    ensures
        follows_edges(graph, order.push(node)),
{
    let after = order.push(node);
    assert forall|k: int, to: usize|
        0 <= k < after.len() && #[trigger] graph[after[k] as int]@.contains(
            to,
        ) implies #[trigger] after.take(k).contains(to) by {
        assert(after.take(k) =~= order.take(k));
        if k < order.len() {
            assert(graph[order[k] as int]@.contains(to));
            assert(order.take(k).contains(to));
        } else {
            assert(order.take(k) =~= order);
        }
    }
}

/// Visits a node depth first, adding it and what it leads to at the end of the
/// order. Tells whether the visit came back to a node that was under way.
fn visit(
    graph: &Vec<Vec<usize>>,
    node: usize,
    marks: &mut Vec<Mark>,
    order: &mut Vec<usize>,
    Ghost(active): Ghost<Seq<usize>>,
) -> (cyclic: bool)
    requires
        edges_in_range(graph@),
        node < graph@.len(),
        old(marks)@.len() == graph@.len(),
        marks_match(old(marks)@, active, old(order)@),
        is_walk(graph@, active),
        active.no_duplicates(),
        active.len() <= graph@.len(),
        active.len() > 0 ==> graph@[active.last() as int]@.contains(node),
    ensures
        final(marks)@.len() == graph@.len(),
        marks_match(final(marks)@, active, final(order)@),
        final(order)@ == visited(
            graph@,
            node,
            active,
            old(order)@,
            (graph@.len() - active.len()) as nat,
        ),
        old(order)@.is_prefix_of(final(order)@),
        old(order)@.no_duplicates() ==> final(order)@.no_duplicates(),
        in_range(old(order)@, graph@.len()) ==> in_range(final(order)@, graph@.len()),
        cyclic ==> meets_cycle(graph@, root_of(active, node)),
        !cyclic ==> final(order)@.contains(node),
        !active.contains(node) ==> final(order)@.contains(node),
        !cyclic && follows_edges(graph@, old(order)@) ==> follows_edges(graph@, final(order)@),
    decreases graph@.len() - active.len(),
{
    match marks[node] {
        Mark::Done => {
            proof {
                assert(marks@[node as int] == Mark::Done);
                assert(order@.contains(node));
            }
            return false;
        },
        Mark::Active => {
            proof {
                assert(active.contains(node));
                let nodes = active.push(node);
                assert(is_walk(graph@, nodes)) by {
                    assert forall|i: int, m: int|
                        #![trigger nodes[i], nodes[m]]
                        0 <= i && m == i + 1 && m < nodes.len() implies graph@[nodes[i] as int]@.contains(
                    nodes[m]) by {
                        assert(nodes[i] == active[i]);
                        if m < active.len() {
                            assert(nodes[m] == active[m]);
                        }
                    }
                }
                assert(nodes.drop_last() =~= active);
                assert(nodes[0] == active[0]);
            }
            return true;
        },
        Mark::New => {},
    }
    proof {
        assert(!active.contains(node));
        assert(in_range(active, graph@.len()));
        lemma_distinct_bound(active, graph@.len(), node);
    }
    let ghost start = order@;
    let ghost inner = active.push(node);
    let ghost fuel = (graph@.len() - active.len() - 1) as nat;
    marks.set(node, Mark::Active);
    proof {
        assert forall|i: usize| i < marks@.len() implies {
            &&& (#[trigger] marks@[i as int] == Mark::Active) <==> inner.contains(i)
            &&& (marks@[i as int] == Mark::Done) <==> order@.contains(i)
        } by {
            assert(old(marks)@[i as int] == Mark::Active <==> active.contains(i));
            if inner.contains(i) && i != node {
                let k = choose|k: int| 0 <= k < inner.len() && inner[k] == i;
                assert(active[k] == i);
            }
            if active.contains(i) {
                let k = choose|k: int| 0 <= k < active.len() && active[k] == i;
                assert(inner[k] == i);
            }
            assert(inner[active.len() as int] == node);
        }
        assert forall|k: int, m: int|
            #![trigger inner[k], inner[m]]
            0 <= k && m == k + 1 && m < inner.len() implies graph@[inner[k] as int]@.contains(
            inner[m],
        ) by {
            if m < active.len() {
                assert(active[k] == inner[k] && active[m] == inner[m]);
            } else {
                assert(active[k] == active.last());
            }
        }
    }
    let mut cyclic = false;
    let mut i: usize = 0;
    while i < graph[node].len()
        invariant
            edges_in_range(graph@),
            node < graph@.len(),
            i <= graph@[node as int]@.len(),
            inner == active.push(node),
            inner.len() <= graph@.len(),
            !active.contains(node),
            fuel == graph@.len() - inner.len(),
            start == old(order)@,
            marks@.len() == graph@.len(),
            marks_match(marks@, inner, order@),
            is_walk(graph@, inner),
            inner.no_duplicates(),
            order@ == children_visited(graph@, node, i as nat, inner, start, fuel),
            start.is_prefix_of(order@),
            start.no_duplicates() ==> order@.no_duplicates(),
            in_range(start, graph@.len()) ==> in_range(order@, graph@.len()),
            cyclic ==> meets_cycle(graph@, root_of(active, node)),
            !cyclic ==> forall|k: int|
                0 <= k < i ==> order@.contains(#[trigger] graph@[node as int]@[k]),
            !cyclic && follows_edges(graph@, start) ==> follows_edges(graph@, order@),
        decreases graph@[node as int]@.len() - i,
    {
        let child = graph[node][i];
        let ghost before = order@;
        proof {
            assert(graph@[node as int]@[i as int] < graph@.len());
            assert(inner.last() == node);
            assert(graph@[node as int]@.contains(child));
        }
        let found = visit(graph, child, marks, order, Ghost(inner));
        proof {
            if !cyclic && !found {
                assert forall|k: int| 0 <= k < i + 1 implies order@.contains(
                    #[trigger] graph@[node as int]@[k],
                ) by {
                    if k < i {
                        let to = graph@[node as int]@[k];
                        assert(before.contains(to));
                        let m = choose|m: int| 0 <= m < before.len() && before[m] == to;
                        assert(order@[m] == to);
                    }
                }
            }
        }
        cyclic = cyclic || found;
        i = i + 1;
    }
    proof {
        assert(marks@[node as int] == Mark::Active <==> inner.contains(node));
        assert(inner[active.len() as int] == node);
        assert(!order@.contains(node));
        if !cyclic && follows_edges(graph@, start) {
            assert forall|to: usize| #[trigger]
                graph@[node as int]@.contains(to) implies order@.contains(to) by {
                let k = choose|k: int|
                    0 <= k < graph@[node as int]@.len() && graph@[node as int]@[k] == to;
                assert(order@.contains(graph@[node as int]@[k]));
            }
            lemma_follows_push(graph@, order@, node);
        }
    }
    let ghost before = order@;
    let ghost before_marks = marks@;
    marks.set(node, Mark::Done);
    order.push(node);
    proof {
        assert(order@[before.len() as int] == node);
        assert forall|i: usize| i < marks@.len() implies {
            &&& (#[trigger] marks@[i as int] == Mark::Active) <==> active.contains(i)
            &&& (marks@[i as int] == Mark::Done) <==> order@.contains(i)
        } by {
            assert(before_marks[i as int] == Mark::Active <==> inner.contains(i));
            if active.contains(i) {
                let k = choose|k: int| 0 <= k < active.len() && active[k] == i;
                assert(inner[k] == i);
            }
            if inner.contains(i) && i != node {
                let k = choose|k: int| 0 <= k < inner.len() && inner[k] == i;
                assert(active[k] == i);
            }
            if before.contains(i) {
                let k = choose|k: int| 0 <= k < before.len() && before[k] == i;
                assert(order@[k] == i);
            }
            if order@.contains(i) && i != node {
                let k = choose|k: int| 0 <= k < order@.len() && order@[k] == i;
                assert(before[k] == i);
            }
        }
    }
    cyclic
}

/// What a depth-first pass over all nodes found: the nodes in the order in
/// which their visits ended, and the first node whose visit met a cycle.
pub struct Traversal {
    pub order: Vec<usize>,
    pub cyclic_from: Option<usize>,
}

/// Visits every node in ascending order.
pub fn traverse(graph: &Vec<Vec<usize>>) -> (result: Traversal)
    requires
        edges_in_range(graph@),
    ensures
        result.order@ == visited_up_to(graph@, graph@.len()),
        result.order@.no_duplicates(),
        forall|i: usize| i < graph@.len() <==> #[trigger] result.order@.contains(i),
        match result.cyclic_from {
            Some(node) => node < graph@.len() && meets_cycle(graph@, node) && forall|earlier: usize|
                earlier < node ==> !#[trigger] meets_cycle(graph@, earlier),
            None => !has_cycle(graph@),
        },
        !has_cycle(graph@) ==> follows_edges(graph@, result.order@),
{
    let mut marks: Vec<Mark> = Vec::new();
    let mut i: usize = 0;
    while i < graph.len()
        invariant
            i <= graph@.len(),
            marks@.len() == i,
            forall|k: int| 0 <= k < i ==> (#[trigger] marks@[k]) == Mark::New,
        decreases graph@.len() - i,
    {
        marks.push(Mark::New);
        i = i + 1;
    }
    let mut order: Vec<usize> = Vec::new();
    let mut cyclic_from: Option<usize> = None;
    let mut node: usize = 0;
    proof {
        assert forall|i: usize| i < marks@.len() implies {
            &&& (#[trigger] marks@[i as int] == Mark::Active) <==> Seq::<usize>::empty().contains(i)
            &&& (marks@[i as int] == Mark::Done) <==> order@.contains(i)
        } by {
            assert(marks@[i as int] == Mark::New);
        }
    }
    while node < graph.len()
        invariant
            edges_in_range(graph@),
            node <= graph@.len(),
            marks@.len() == graph@.len(),
            marks_match(marks@, Seq::empty(), order@),
            order@ == visited_up_to(graph@, node as nat),
            order@.no_duplicates(),
            in_range(order@, graph@.len()),
            forall|k: usize| k < node ==> #[trigger] order@.contains(k),
            match cyclic_from {
                Some(first) => first < graph@.len() && meets_cycle(graph@, first)
                    && forall|earlier: usize|
                    earlier < first ==> !#[trigger] meets_cycle(graph@, earlier),
                None => follows_edges(graph@, order@),
            },
        decreases graph@.len() - node,
    {
        let ghost before = order@;
        let found = visit(graph, node, &mut marks, &mut order, Ghost(Seq::empty()));
        proof {
            assert forall|k: usize| k < node + 1 implies #[trigger] order@.contains(k) by {
                if k < node {
                    assert(before.contains(k));
                    let m = choose|m: int| 0 <= m < before.len() && before[m] == k;
                    assert(order@[m] == k);
                }
            }
        }
        if found && cyclic_from.is_none() {
            proof {
                assert forall|earlier: usize| earlier < node implies !#[trigger] meets_cycle(
                    graph@,
                    earlier,
                ) by {
                    assert(before.contains(earlier));
                    lemma_order_rules_out_cycles(graph@, before, earlier);
                }
            }
            cyclic_from = Some(node);
        }
        node = node + 1;
    }
    proof {
        lemma_cycle_met(graph@);
        if cyclic_from is None {
            assert forall|from: usize| from < graph@.len() implies !#[trigger] meets_cycle(
                graph@,
                from,
            ) by {
                assert(order@.contains(from));
                lemma_order_rules_out_cycles(graph@, order@, from);
            }
        }
        assert forall|i: usize| #[trigger] order@.contains(i) implies i < graph@.len() by {
            let k = choose|k: int| 0 <= k < order@.len() && order@[k] == i;
            assert(order@[k] < graph@.len());
        }
    }
    Traversal { order, cyclic_from }
}

/// The least index below a count that has a property, counting from `from`.
pub open spec fn least(from: nat, count: nat, property: spec_fn(int) -> bool) -> Option<int>
    decreases count - from,
{
    if from >= count {
        None
    } else if property(from as int) {
        Some(from as int)
    } else {
        least(from + 1, count, property)
    }
}

/// The least index is where the property first holds.
pub proof fn lemma_least(from: nat, count: nat, property: spec_fn(int) -> bool, at: int)
    requires
        from <= at <= count,
        forall|k: int| from <= k < at ==> !(#[trigger] property(k)),
        at < count ==> property(at),
    ensures
        least(from, count, property) == if at < count {
            Some(at)
        } else {
            None
        },
    decreases at - from,
{
    if from < at {
        assert(!property(from as int));
        lemma_least(from + 1, count, property, at);
    }
}

impl Formulas {
    /// Formulas that refer to one another in sequence.
    pub open spec fn is_chain(&self, nodes: Seq<usize>) -> bool {
        &&& forall|k: int| 0 <= k < nodes.len() ==> (#[trigger] nodes[k]) < self.items@.len()
        &&& forall|k: int, m: int|
            #![trigger nodes[k], nodes[m]]
            0 <= k && m == k + 1 && m < nodes.len() ==> self.depends(
                nodes[k] as int,
                nodes[m] as int,
            )
    }

    /// Following references from a formula can come back to a formula passed.
    pub open spec fn leads_into_cycle(&self, from: int) -> bool {
        exists|nodes: Seq<usize>| #[trigger]
            self.is_chain(nodes) && nodes.len() >= 2 && nodes[0] as int == from
                && nodes.drop_last().contains(nodes.last())
    }

    pub open spec fn parse_fails(&self, index: int) -> bool {
        self.items@[index].parsed is Err
    }

    pub open spec fn refers_to_itself(&self, index: int) -> bool {
        match self.items@[index].parsed {
            Ok(expression) => refers_to(expression, self.items@[index].name@),
            Err(_) => false,
        }
    }

    /// The formula divides by a literal zero.
    pub open spec fn divides_by_zero(&self, index: int) -> bool {
        match self.items@[index].parsed {
            Ok(expression) => divides_by_literal_zero(expression),
            Err(_) => false,
        }
    }

    /// Evaluating the formula without a record shows an error that no record
    /// could change.
    pub open spec fn fails_statically(&self, index: int) -> bool {
        match self.items@[index].static_error {
            Some(error) => error.code@ == "unknown_function"@ || error.code@
                == "wrong_argument_count"@,
            None => false,
        }
    }

    /// The text that introduces a message about one formula.
    pub open spec fn about(&self, index: int) -> Seq<char> {
        "Formula '"@ + self.items@[index].name@
    }

    /// The code and the message of the error that the formulas give rise to:
    /// a formula that does not parse, one that refers to itself, one whose
    /// references lead into a cycle, one that cannot be evaluated at all; the
    /// first kind that occurs, at the first formula it occurs in.
    pub open spec fn verdict(&self) -> Option<(Seq<char>, Seq<char>)> {
        let count = self.items@.len();
        match least(0, count, |i: int| self.parse_fails(i)) {
            Some(i) => Some(
                ("invalid_formula"@, self.about(i) + "': "@ + self.items@[i].parsed->Err_0@),
            ),
            None => match least(0, count, |i: int| self.refers_to_itself(i)) {
                Some(i) => Some(("circular_formula"@, self.about(i) + "' references itself"@)),
                None => match least(0, count, |i: int| self.leads_into_cycle(i)) {
                    Some(i) => Some(
                        (
                            "circular_formula"@,
                            "Circular formula reference involving '"@ + self.items@[i].name@ + "'"@,
                        ),
                    ),
                    None => match least(
                        0,
                        count,
                        |i: int| self.divides_by_zero(i) || self.fails_statically(i),
                    ) {
                        Some(i) => Some(
                            (
                                "formula_evaluation_error"@,
                                if self.divides_by_zero(i) {
                                    self.about(i) + "': Division by zero"@
                                } else {
                                    self.about(i) + "': "@ + self.items@[i].static_error->0.message@
                                },
                            ),
                        ),
                        None => None,
                    },
                },
            },
        }
    }

    /// For each formula, the ascending positions of those it depends on.
    pub fn build_formula_deps(&self) -> (result: Vec<Vec<usize>>)
        requires
            self.wf(),
        ensures
            self.is_dependency_list(result@),
    {
        let mut graph: Vec<Vec<usize>> = Vec::new();
        let mut i: usize = 0;
        while i < self.items.len()
            invariant
                i <= self.items@.len(),
                graph@.len() == i,
                forall|k: int| 0 <= k < i ==> self.lists_dependencies(k, #[trigger] graph@[k]),
            decreases self.items@.len() - i,
        {
            let list = self.dependencies_of(i);
            graph.push(list);
            i = i + 1;
        }
        graph
    }

    fn dependencies_of(&self, from: usize) -> (list: Vec<usize>)
        requires
            from < self.items@.len(),
        ensures
            self.lists_dependencies(from as int, list),
    {
        let refs = match &self.items[from].parsed {
            Ok(expression) => extract_formula_refs(expression),
            Err(_) => Vec::new(),
        };
        let mut list: Vec<usize> = Vec::new();
        let mut to: usize = 0;
        while to < self.items.len()
            invariant
                to <= self.items@.len(),
                from < self.items@.len(),
                match self.items@[from as int].parsed {
                    Ok(expression) => forall|name: Seq<char>| #[trigger]
                        lists_text(refs@, name) <==> refers_to(expression, name),
                    Err(_) => refs@.len() == 0,
                },
                forall|k: int| 0 <= k < list@.len() ==> (#[trigger] list@[k]) < to,
                forall|k: int, m: int| 0 <= k < m < list@.len() ==> list@[k] < list@[m],
                forall|other: usize|
                    other < to ==> (list@.contains(other) <==> #[trigger] self.depends(
                        from as int,
                        other as int,
                    )),
            decreases self.items@.len() - to,
        {
            let ghost before = list@;
            let found = from != to && list_contains(&refs, self.items[to].name.as_str());
            if found {
                list.push(to);
            }
            proof {
                assert(found <==> self.depends(from as int, to as int));
                assert forall|other: usize| other < to + 1 implies (list@.contains(other)
                    <==> #[trigger] self.depends(from as int, other as int)) by {
                    if found {
                        assert(list@[before.len() as int] == to);
                    }
                    if other < to {
                        if before.contains(other) {
                            let k = choose|k: int| 0 <= k < before.len() && before[k] == other;
                            assert(list@[k] == other);
                        }
                        if list@.contains(other) {
                            let k = choose|k: int| 0 <= k < list@.len() && list@[k] == other;
                            assert(before[k] == other);
                        }
                    }
                }
            }
            to = to + 1;
        }
        list
    }

    /// Walks along the dependency lists are chains of formulas.
    proof fn lemma_chains(&self, graph: Seq<Vec<usize>>)
        requires
            self.is_dependency_list(graph),
        ensures
            edges_in_range(graph),
            forall|nodes: Seq<usize>| #[trigger]
                is_walk(graph, nodes) <==> #[trigger] self.is_chain(nodes),
            forall|from: usize| #[trigger]
                meets_cycle(graph, from) <==> self.leads_into_cycle(from as int),
    {
        assert forall|i: int, k: int|
            0 <= i < graph.len() && 0 <= k < graph[i]@.len() implies (#[trigger] graph[i]@[k])
            < graph.len() by {
            assert(self.lists_dependencies(i, graph[i]));
        }
        assert forall|nodes: Seq<usize>| #[trigger]
            is_walk(graph, nodes) <==> #[trigger] self.is_chain(nodes) by {
            if is_walk(graph, nodes) {
                assert forall|k: int, m: int|
                    #![trigger nodes[k], nodes[m]]
                    0 <= k && m == k + 1 && m < nodes.len() implies self.depends(
                    nodes[k] as int,
                    nodes[m] as int,
                ) by {
                    assert(self.lists_dependencies(nodes[k] as int, graph[nodes[k] as int]));
                    assert(graph[nodes[k] as int]@.contains(nodes[m]));
                }
            }
            if self.is_chain(nodes) {
                assert forall|k: int, m: int|
                    #![trigger nodes[k], nodes[m]]
                    0 <= k && m == k + 1 && m < nodes.len() implies graph[nodes[k] as int]@.contains(
                    nodes[m],
                ) by {
                    assert(self.lists_dependencies(nodes[k] as int, graph[nodes[k] as int]));
                    assert(self.depends(nodes[k] as int, nodes[m] as int));
                }
            }
        }
        assert forall|from: usize| #[trigger]
            meets_cycle(graph, from) <==> self.leads_into_cycle(from as int) by {
            if meets_cycle(graph, from) {
                let nodes = choose|nodes: Seq<usize>| #[trigger]
                    is_walk(graph, nodes) && nodes.len() >= 2 && nodes[0] == from
                        && nodes.drop_last().contains(nodes.last());
                assert(self.is_chain(nodes));
            }
            if self.leads_into_cycle(from as int) {
                let nodes = choose|nodes: Seq<usize>| #[trigger]
                    self.is_chain(nodes) && nodes.len() >= 2 && nodes[0] as int == from as int
                        && nodes.drop_last().contains(nodes.last());
                assert(is_walk(graph, nodes));
            }
        }
    }

    fn formula_error(&self, index: usize, code: &str, rest: &str) -> (error: QueryError)
        requires
            index < self.items@.len(),
        ensures
            error.code@ == code@,
            error.message@ == self.about(index as int) + rest@,
    {
        let message = "Formula '".to_owned().concat(self.items[index].name.as_str()).concat(rest);
        QueryError { code: code.to_owned(), message }
    }

    /// Checks that every formula parses, that none depends on itself directly
    /// or through others, and that none is bound to fail.
    pub fn validate_formulas(&self) -> (result: Result<(), QueryError>)
        requires
            self.wf(),
        ensures
            match result {
                Ok(_) => self.verdict() is None,
                Err(error) => self.verdict() == Some((error.code@, error.message@)),
            },
    {
        let count = self.items.len();
        let ghost parse_fails = |i: int| self.parse_fails(i);
        let ghost refers_to_itself = |i: int| self.refers_to_itself(i);
        let ghost leads_into_cycle = |i: int| self.leads_into_cycle(i);
        let ghost fails = |i: int| self.divides_by_zero(i) || self.fails_statically(i);
        let mut i: usize = 0;
        while i < count
            invariant
                count == self.items@.len(),
                i <= count,
                parse_fails == |i: int| self.parse_fails(i),
                forall|k: int| 0 <= k < i ==> !(#[trigger] parse_fails(k)),
            decreases count - i,
        {
            if let Err(message) = &self.items[i].parsed {
                proof {
                    lemma_least(0, count as nat, parse_fails, i as int);
                }
                return Err(
                    self.formula_error(
                        i,
                        "invalid_formula",
                        "': ".to_owned().concat(message.as_str()).as_str(),
                    ),
                );
            }
            i = i + 1;
        }
        proof {
            lemma_least(0, count as nat, parse_fails, count as int);
        }
        let mut i: usize = 0;
        while i < count
            invariant
                count == self.items@.len(),
                i <= count,
                least(0, count as nat, |i: int| self.parse_fails(i)) is None,
                refers_to_itself == |i: int| self.refers_to_itself(i),
                forall|k: int| 0 <= k < i ==> !(#[trigger] refers_to_itself(k)),
            decreases count - i,
        {
            if let Ok(expression) = &self.items[i].parsed {
                let refs = extract_formula_refs(expression);
                if list_contains(&refs, self.items[i].name.as_str()) {
                    proof {
                        lemma_least(0, count as nat, refers_to_itself, i as int);
                    }
                    return Err(self.formula_error(i, "circular_formula", "' references itself"));
                }
            }
            i = i + 1;
        }
        let graph = self.build_formula_deps();
        proof {
            lemma_least(0, count as nat, refers_to_itself, count as int);
            self.lemma_chains(graph@);
            lemma_cycle_met(graph@);
        }
        let traversal = traverse(&graph);
        if let Some(node) = traversal.cyclic_from {
            proof {
                assert forall|k: int| 0 <= k < node implies !(#[trigger] leads_into_cycle(k)) by {
                    assert(!meets_cycle(graph@, k as usize));
                }
                lemma_least(0, count as nat, leads_into_cycle, node as int);
            }
            let message = "Circular formula reference involving '".to_owned().concat(
                self.items[node].name.as_str(),
            ).concat("'");
            return Err(QueryError { code: "circular_formula".to_owned(), message });
        }
        proof {
            assert forall|k: int| 0 <= k < count implies !(#[trigger] leads_into_cycle(k)) by {
                assert(!meets_cycle(graph@, k as usize));
            }
            lemma_least(0, count as nat, leads_into_cycle, count as int);
        }
        let mut i: usize = 0;
        while i < count
            invariant
                count == self.items@.len(),
                i <= count,
                forall|k: int| 0 <= k < count ==> !(#[trigger] parse_fails(k)),
                parse_fails == |i: int| self.parse_fails(i),
                fails == |i: int| self.divides_by_zero(i) || self.fails_statically(i),
                forall|k: int| 0 <= k < i ==> !(#[trigger] fails(k)),
                least(0, count as nat, |i: int| self.parse_fails(i)) is None,
                least(0, count as nat, |i: int| self.refers_to_itself(i)) is None,
                least(0, count as nat, |i: int| self.leads_into_cycle(i)) is None,
            decreases count - i,
        {
            if let Ok(expression) = &self.items[i].parsed {
                if has_literal_div_by_zero(expression) {
                    proof {
                        lemma_least(0, count as nat, fails, i as int);
                    }
                    return Err(
                        self.formula_error(i, "formula_evaluation_error", "': Division by zero"),
                    );
                }
            }
            if let Some(error) = &self.items[i].static_error {
                if same_text(error.code.as_str(), "unknown_function") || same_text(
                    error.code.as_str(),
                    "wrong_argument_count",
                ) {
                    proof {
                        lemma_least(0, count as nat, fails, i as int);
                    }
                    return Err(
                        self.formula_error(
                            i,
                            "formula_evaluation_error",
                            "': ".to_owned().concat(error.message.as_str()).as_str(),
                        ),
                    );
                }
            }
            i = i + 1;
        }
        proof {
            lemma_least(0, count as nat, fails, count as int);
        }
        Ok(())
    }

    /// The names of the formulas in the order of a depth-first pass over their
    /// dependencies. Without cycles every formula comes after those it
    /// depends on.
    pub fn topological_sort_formulas(&self) -> (result: Vec<String>)
        requires
            self.wf(),
        ensures
            self.is_evaluation_order(texts(result@)),
    {
        let graph = self.build_formula_deps();
        proof {
            self.lemma_chains(graph@);
            lemma_cycle_met(graph@);
        }
        let traversal = traverse(&graph);
        let mut names: Vec<String> = Vec::new();
        let count: usize = self.items.len();
        let mut i: usize = 0;
        while i < traversal.order.len()
            invariant
                i <= traversal.order@.len(),
                names@.len() == i,
                forall|k: usize| #[trigger]
                    traversal.order@.contains(k) ==> k < self.items@.len(),
                forall|k: int|
                    0 <= k < i ==> (#[trigger] names@[k])@
                        == self.items@[traversal.order@[k] as int].name@,
            decreases traversal.order@.len() - i,
        {
            proof {
                assert(traversal.order@.contains(traversal.order@[i as int]));
            }
            names.push(self.items[traversal.order[i]].name.clone());
            i = i + 1;
        }
        proof {
            let order = traversal.order@;
            assert(texts(names@) =~= Seq::new(
                order.len(),
                |k: int| self.items@[order[k] as int].name@,
            ));
            assert(self.orders_names(texts(names@), graph@, order));
            if !(exists|from: int| 0 <= from < self.items@.len() && self.leads_into_cycle(from)) {
                assert(!has_cycle(graph@)) by {
                    if has_cycle(graph@) {
                        let from = choose|from: usize|
                            from < graph@.len() && #[trigger] meets_cycle(graph@, from);
                        assert(self.leads_into_cycle(from as int));
                    }
                }
                assert forall|k: int, to: int|
                    0 <= k < order.len() && 0 <= to < self.items@.len() && #[trigger] self.depends(
                        order[k] as int,
                        to,
                    ) implies #[trigger] order.take(k).contains(to as usize) by {
                    assert(order.contains(order[k]));
                    assert(self.lists_dependencies(order[k] as int, graph@[order[k] as int]));
                    assert(to < count);
                    assert((to as usize) as int == to);
                    assert(self.depends(order[k] as int, (to as usize) as int));
                    assert(graph@[order[k] as int]@.contains(to as usize));
                }
            }
        }
        names
    }

    /// Names that list the formulas in the order of the depth-first pass.
    pub open spec fn orders_names(
        &self,
        names: Seq<Seq<char>>,
        graph: Seq<Vec<usize>>,
        order: Seq<usize>,
    ) -> bool {
        &&& self.is_dependency_list(graph)
        &&& order == visited_up_to(graph, graph.len())
        &&& names == Seq::new(order.len(), |k: int| self.items@[order[k] as int].name@)
    }

    /// Every formula is named once, in the order of the depth-first pass; and
    /// where no references lead into a cycle, after all those it depends on.
    pub open spec fn is_evaluation_order(&self, names: Seq<Seq<char>>) -> bool {
        exists|graph: Seq<Vec<usize>>, order: Seq<usize>| #[trigger]
            self.orders_names(names, graph, order) && order.no_duplicates() && (forall|i: usize|
                i < self.items@.len() <==> #[trigger] order.contains(i)) && (!(exists|from: int|
                0 <= from < self.items@.len() && self.leads_into_cycle(from)) ==> forall|
                k: int,
                to: int,
            |
                0 <= k < order.len() && 0 <= to < self.items@.len() && #[trigger] self.depends(
                    order[k] as int,
                    to,
                ) ==> #[trigger] order.take(k).contains(to as usize))
    }
}

} // verus!
