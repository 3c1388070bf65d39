use vstd::prelude::*;

verus! {

/// One node of a computation graph. Operands are indices of earlier nodes.
#[derive(Clone, Copy, Debug, PartialEq, Eq, Structural)]
pub enum Node {
    /// A scalar input bound to a literal value.
    Input(i64),
    Add(usize, usize),
    Sub(usize, usize),
    Mul(usize, usize),
    /// Floor division by a positive constant.
    DivConst(usize, i64),
    /// 1 when the first operand is strictly less than the second, else 0.
    Lt(usize, usize),
}

/// An arithmetic graph without control flow, built node by node.
///
/// Every node refers only to nodes created before it, so the graph is acyclic
/// and can be replayed in order by an arithmetic proving backend.
#[derive(Debug)]
pub struct Graph {
    pub nodes: Vec<Node>,
    /// Nodes marked for retrieval after execution, in marking order.
    pub outputs: Vec<usize>,
}

/// Node `n`, standing at index `i`, refers only to earlier nodes.
pub open spec fn node_wf(n: Node, i: int) -> bool {
    match n {
        Node::Input(_) => true,
        Node::Add(a, b) => a < i && b < i,
        Node::Sub(a, b) => a < i && b < i,
        Node::Mul(a, b) => a < i && b < i,
        Node::DivConst(a, c) => a < i && c > 0,
        Node::Lt(a, b) => a < i && b < i,
    }
}

pub open spec fn nodes_wf(nodes: Seq<Node>) -> bool {
    forall|i: int| 0 <= i < nodes.len() ==> node_wf(#[trigger] nodes[i], i)
}

/// The value of node `i`, over the integers.
pub open spec fn eval(nodes: Seq<Node>, i: int) -> int
    decreases i,
{
    if i < 0 || i >= nodes.len() {
        0
    } else {
        match nodes[i] {
            Node::Input(v) => v as int,
            Node::Add(a, b) => if a < i && b < i {
                eval(nodes, a as int) + eval(nodes, b as int)
            } else {
                0
            },
            Node::Sub(a, b) => if a < i && b < i {
                eval(nodes, a as int) - eval(nodes, b as int)
            } else {
                0
            },
            Node::Mul(a, b) => if a < i && b < i {
                eval(nodes, a as int) * eval(nodes, b as int)
            } else {
                0
            },
            Node::DivConst(a, c) => if a < i && c > 0 {
                eval(nodes, a as int) / (c as int)
            } else {
                0
            },
            Node::Lt(a, b) => if a < i && b < i {
                if eval(nodes, a as int) < eval(nodes, b as int) {
                    1
                } else {
                    0
                }
            } else {
                0
            },
        }
    }
}

pub open spec fn fits_i64(x: int) -> bool {
    i64::MIN <= x <= i64::MAX
}

/// Appending nodes never changes the value of an existing node.
pub proof fn lemma_eval_extend(nodes: Seq<Node>, ext: Seq<Node>, i: int)
    requires
        nodes.len() <= ext.len(),
        nodes =~= ext.subrange(0, nodes.len() as int),
        0 <= i < nodes.len(),
    ensures
        eval(ext, i) == eval(nodes, i),
    decreases i,
{
    assert(ext[i] == nodes[i]);
    match nodes[i] {
        Node::Input(_) => {},
        Node::Add(a, b) | Node::Sub(a, b) | Node::Mul(a, b) | Node::Lt(a, b) => {
            if a < i && b < i {
                lemma_eval_extend(nodes, ext, a as int);
                lemma_eval_extend(nodes, ext, b as int);
            }
        },
        Node::DivConst(a, _) => {
            if a < i {
                lemma_eval_extend(nodes, ext, a as int);
            }
        },
    }
}

impl Graph {
    pub open spec fn wf(&self) -> bool {
        &&& nodes_wf(self.nodes@)
        &&& forall|k: int| 0 <= k < self.outputs.len() ==> #[trigger] self.outputs[k] < self.nodes.len()
    }

    /// The value of node `i` of this graph.
    pub open spec fn value(&self, i: int) -> int {
        eval(self.nodes@, i)
    }

    /// `g` is this graph with nodes appended and nothing else changed: the
    /// existing nodes, their values and the marked outputs stay as they were.
    pub open spec fn extended_by(&self, g: Graph) -> bool {
        &&& self.nodes.len() <= g.nodes.len()
        &&& forall|i: int| 0 <= i < self.nodes.len() ==> #[trigger] g.nodes@[i] == self.nodes@[i]
        &&& forall|i: int| 0 <= i < self.nodes.len() ==> #[trigger] g.value(i) == self.value(i)
        &&& g.outputs@ == self.outputs@
    }

    /// `g` is this graph with the one node `n` appended.
    pub open spec fn pushed(&self, g: Graph, n: Node) -> bool {
        &&& g.nodes@ == self.nodes@.push(n)
        &&& g.outputs@ == self.outputs@
    }

    pub fn new() -> (g: Graph)
        ensures
            g.wf(),
            g.nodes@.len() == 0,
            g.outputs@.len() == 0,
    {
        Graph { nodes: Vec::new(), outputs: Vec::new() }
    }

    /// Appends `n`, whose operands must already exist, and returns its index.
    fn push_node(&mut self, n: Node) -> (r: usize)
        requires
            old(self).wf(),
            node_wf(n, old(self).nodes.len() as int),
            old(self).nodes.len() < usize::MAX,
        ensures
            final(self).wf(),
            old(self).pushed(*final(self), n),
            r == old(self).nodes.len(),
            forall|i: int|
                0 <= i < old(self).nodes.len() ==> #[trigger] final(self).value(i) == old(self).value(i),
    {
        let r = self.nodes.len();
        self.nodes.push(n);
        proof {
            let ext = self.nodes@;
            let pre = old(self).nodes@;
            assert(pre =~= ext.subrange(0, pre.len() as int));
            assert forall|i: int| 0 <= i < ext.len() implies node_wf(#[trigger] ext[i], i) by {
                if i < pre.len() {
                    assert(ext[i] == pre[i]);
                }
            }
            assert forall|i: int| 0 <= i < pre.len() implies #[trigger] eval(ext, i) == eval(pre, i) by {
                lemma_eval_extend(pre, ext, i);
            }
            assert forall|k: int| 0 <= k < self.outputs.len() implies #[trigger] self.outputs[k]
                < self.nodes.len() by {
                assert(self.outputs[k] == old(self).outputs[k]);
            }
        }
        r
    }

    /// A scalar input node holding `v`.
    pub fn input(&mut self, v: i64) -> (r: usize)
        requires
            old(self).wf(),
            old(self).nodes.len() < usize::MAX,
        ensures
            final(self).wf(),
            old(self).pushed(*final(self), Node::Input(v)),
            r == old(self).nodes.len(),
            final(self).value(r as int) == v,
            forall|i: int|
                0 <= i < old(self).nodes.len() ==> #[trigger] final(self).value(i) == old(self).value(i),
    {
        let r = self.push_node(Node::Input(v));
        proof {
            assert(self.nodes@[r as int] == Node::Input(v));
        }
        r
    }

    /// The elementwise sum of nodes `a` and `b`.
    pub fn add(&mut self, a: usize, b: usize) -> (r: usize)
        requires
            old(self).wf(),
            a < old(self).nodes.len(),
            b < old(self).nodes.len(),
            old(self).nodes.len() < usize::MAX,
        ensures
            final(self).wf(),
            old(self).pushed(*final(self), Node::Add(a, b)),
            r == old(self).nodes.len(),
            final(self).value(r as int) == old(self).value(a as int) + old(self).value(b as int),
            forall|i: int|
                0 <= i < old(self).nodes.len() ==> #[trigger] final(self).value(i) == old(self).value(i),
    {
        let r = self.push_node(Node::Add(a, b));
        proof {
            assert(self.nodes@[r as int] == Node::Add(a, b));
            assert(self.value(a as int) == old(self).value(a as int));
            assert(self.value(b as int) == old(self).value(b as int));
        }
        r
    }

    /// The elementwise difference `a - b`.
    pub fn sub(&mut self, a: usize, b: usize) -> (r: usize)
        requires
            old(self).wf(),
            a < old(self).nodes.len(),
            b < old(self).nodes.len(),
            old(self).nodes.len() < usize::MAX,
        ensures
            final(self).wf(),
            old(self).pushed(*final(self), Node::Sub(a, b)),
            r == old(self).nodes.len(),
            final(self).value(r as int) == old(self).value(a as int) - old(self).value(b as int),
            forall|i: int|
                0 <= i < old(self).nodes.len() ==> #[trigger] final(self).value(i) == old(self).value(i),
    {
        let r = self.push_node(Node::Sub(a, b));
        proof {
            assert(self.nodes@[r as int] == Node::Sub(a, b));
            assert(self.value(a as int) == old(self).value(a as int));
            assert(self.value(b as int) == old(self).value(b as int));
        }
        r
    }

    /// The elementwise product of nodes `a` and `b`.
    pub fn mul(&mut self, a: usize, b: usize) -> (r: usize)
        requires
            old(self).wf(),
            a < old(self).nodes.len(),
            b < old(self).nodes.len(),
            old(self).nodes.len() < usize::MAX,
        ensures
            final(self).wf(),
            old(self).pushed(*final(self), Node::Mul(a, b)),
            r == old(self).nodes.len(),
            final(self).value(r as int) == old(self).value(a as int) * old(self).value(b as int),
            forall|i: int|
                0 <= i < old(self).nodes.len() ==> #[trigger] final(self).value(i) == old(self).value(i),
    {
        let r = self.push_node(Node::Mul(a, b));
        proof {
            assert(self.nodes@[r as int] == Node::Mul(a, b));
            assert(self.value(a as int) == old(self).value(a as int));
            assert(self.value(b as int) == old(self).value(b as int));
        }
        r
    }

    /// Node `a` divided by the positive constant `c`, rounded down.
    pub fn div_const(&mut self, a: usize, c: i64) -> (r: usize)
        requires
            old(self).wf(),
            a < old(self).nodes.len(),
            c > 0,
            old(self).nodes.len() < usize::MAX,
        ensures
            final(self).wf(),
            old(self).pushed(*final(self), Node::DivConst(a, c)),
            r == old(self).nodes.len(),
            final(self).value(r as int) == old(self).value(a as int) / (c as int),
            forall|i: int|
                0 <= i < old(self).nodes.len() ==> #[trigger] final(self).value(i) == old(self).value(i),
    {
        let r = self.push_node(Node::DivConst(a, c));
        proof {
            assert(self.nodes@[r as int] == Node::DivConst(a, c));
            assert(self.value(a as int) == old(self).value(a as int));
        }
        r
    }

    /// The 0/1 indicator of `a < b`.
    pub fn lt(&mut self, a: usize, b: usize) -> (r: usize)
        requires
            old(self).wf(),
            a < old(self).nodes.len(),
            b < old(self).nodes.len(),
            old(self).nodes.len() < usize::MAX,
        ensures
            final(self).wf(),
            old(self).pushed(*final(self), Node::Lt(a, b)),
            r == old(self).nodes.len(),
            final(self).value(r as int) == (if old(self).value(a as int) < old(self).value(b as int) {
                1int
            } else {
                0int
            }),
            forall|i: int|
                0 <= i < old(self).nodes.len() ==> #[trigger] final(self).value(i) == old(self).value(i),
    {
        let r = self.push_node(Node::Lt(a, b));
        proof {
            assert(self.nodes@[r as int] == Node::Lt(a, b));
            assert(self.value(a as int) == old(self).value(a as int));
            assert(self.value(b as int) == old(self).value(b as int));
        }
        r
    }

    /// Executes the graph: the value of every node, in order, or `None` when
    /// some node's value does not fit in an `i64`.
    pub fn evaluate(&self) -> (r: Option<Vec<i64>>)
        requires
            self.wf(),
        ensures
            r matches Some(v) ==> v@.len() == self.nodes@.len() && forall|i: int|
                0 <= i < v@.len() ==> #[trigger] v@[i] as int == self.value(i),
            r is None <==> exists|i: int|
                0 <= i < self.nodes@.len() && !fits_i64(#[trigger] self.value(i)),
    {
        let mut vals: Vec<i64> = Vec::new();
        let n = self.nodes.len();
        let mut i: usize = 0;
        while i < n
            invariant
                n == self.nodes@.len(),
                nodes_wf(self.nodes@),
                i <= n,
                vals@.len() == i,
                forall|j: int| 0 <= j < i ==> #[trigger] vals@[j] as int == self.value(j),
            decreases n - i,
        {
            let node = self.nodes[i];
            assert(node_wf(self.nodes@[i as int], i as int));
            let x: Option<i64> = match node {
                Node::Input(v) => Some(v),
                Node::Add(a, b) => vals[a].checked_add(vals[b]),
                Node::Sub(a, b) => vals[a].checked_sub(vals[b]),
                Node::Mul(a, b) => vals[a].checked_mul(vals[b]),
                Node::DivConst(a, c) => vals[a].checked_div_euclid(c),
                Node::Lt(a, b) => Some(if vals[a] < vals[b] { 1 } else { 0 }),
            };
            match x {
                Some(v) => {
                    vals.push(v);
                },
                None => {
                    assert(!fits_i64(self.value(i as int)));
                    return None;
                },
            }
            i = i + 1;
        }
        assert forall|j: int| 0 <= j < n implies fits_i64(#[trigger] self.value(j)) by {
            assert(vals@[j] as int == self.value(j));
        }
        Some(vals)
    }

    /// Marks node `a` for retrieval after execution.
    pub fn retrieve(&mut self, a: usize)
        requires
            old(self).wf(),
            a < old(self).nodes.len(),
        ensures
            final(self).wf(),
            final(self).nodes@ == old(self).nodes@,
            final(self).outputs@ == old(self).outputs@.push(a),
    {
        self.outputs.push(a);
        proof {
            assert forall|k: int| 0 <= k < self.outputs.len() implies #[trigger] self.outputs[k]
                < self.nodes.len() by {
                if k < old(self).outputs.len() {
                    assert(self.outputs[k] == old(self).outputs[k]);
                }
            }
        }
    }
}

} // verus!
