//! The document tree that selectors are matched against.
//!
//! A `Document` is an arena of nodes addressed by index. Each node records
//! its parent and its children in document order; an element node carries
//! its qualified name and its attributes.

use vstd::prelude::*;

verus! {

/// A qualified name: optional prefix, namespace URL and local name.
#[derive(Clone, Debug)]
pub struct QualName {
    pub prefix: Option<String>,
    pub ns: String,
    pub local: String,
}

/// An attribute: its expanded name (namespace URL, the empty string for
/// none, and local name) and its value.
#[derive(Clone, Debug)]
pub struct Attribute {
    pub ns: String,
    pub local: String,
    pub value: String,
}

/// The data of an element: its name and its attributes in document order.
/// In a well-formed document no expanded name occurs twice; the lookups
/// of a lone `ElementData` take the first entry of a name.
#[derive(Clone, Debug)]
pub struct ElementData {
    pub name: QualName,
    pub attributes: Vec<Attribute>,
}

/// What a node is.
#[derive(Clone, Debug)]
pub enum NodeData {
    Element(ElementData),
    Text(String),
    Comment(String),
    /// A processing instruction: target and data.
    ProcessingInstruction(String, String),
    /// A doctype: its name.
    Doctype(String),
    Document,
    DocumentFragment,
}

/// A node of a document: its parent, its children in order, and its data.
#[derive(Clone, Debug)]
pub struct Node {
    pub parent: Option<usize>,
    pub children: Vec<usize>,
    pub data: NodeData,
}

/// An arena of nodes; nodes refer to each other by index.
#[derive(Clone, Debug)]
pub struct Document {
    pub nodes: Vec<Node>,
}

/// No two attributes have the same expanded name.
pub open spec fn attributes_unique(attrs: Seq<Attribute>) -> bool {
    forall|j1: int, j2: int|
        0 <= j1 < j2 < attrs.len() ==> !attribute_has_name(
            #[trigger] attrs[j1],
            (#[trigger] attrs[j2]).ns@,
            attrs[j2].local@,
        )
}

/// Whether attribute `a` has the expanded name (`ns`, `local`).
pub open spec fn attribute_has_name(a: Attribute, ns: Seq<char>, local: Seq<char>) -> bool {
    a.ns@ == ns && a.local@ == local
}

/// `attrs[i]` is the first attribute with the expanded name (`ns`, `local`).
pub open spec fn is_first_attribute(attrs: Seq<Attribute>, ns: Seq<char>, local: Seq<char>, i: int) -> bool {
    &&& 0 <= i < attrs.len()
    &&& attribute_has_name(attrs[i], ns, local)
    &&& forall|j: int| 0 <= j < i ==> !attribute_has_name(#[trigger] attrs[j], ns, local)
}

/// Whether some attribute has the expanded name (`ns`, `local`).
pub open spec fn has_attribute(attrs: Seq<Attribute>, ns: Seq<char>, local: Seq<char>) -> bool {
    exists|i: int| 0 <= i < attrs.len() && attribute_has_name(#[trigger] attrs[i], ns, local)
}

/// The value of the attribute with the expanded name (`ns`, `local`): that
/// of its first entry.
pub open spec fn attribute_value(attrs: Seq<Attribute>, ns: Seq<char>, local: Seq<char>) -> Option<Seq<char>> {
    if exists|i: int| is_first_attribute(attrs, ns, local, i) {
        Some(attrs[choose|i: int| is_first_attribute(attrs, ns, local, i)].value@)
    } else {
        None
    }
}

/// The index of the first attribute with the expanded name (`ns`, `local`), if any.
pub fn find_attribute(attrs: &Vec<Attribute>, ns: &str, local: &str) -> (r: Option<usize>)
    ensures
        r is None <==> !has_attribute(attrs@, ns@, local@),
        r matches Some(i) ==> is_first_attribute(attrs@, ns@, local@, i as int),
        r matches Some(i) ==> attribute_value(attrs@, ns@, local@) == Some(attrs@[i as int].value@),
        r is None ==> attribute_value(attrs@, ns@, local@) is None,
{
    let mut i: usize = 0;
    while i < attrs.len()
        invariant
            i <= attrs@.len(),
            forall|j: int| 0 <= j < i ==> !attribute_has_name(#[trigger] attrs@[j], ns@, local@),
        decreases attrs@.len() - i,
    {
        let a = &attrs[i];
        if crate::bytes::str_equal(a.ns.as_str(), ns) && crate::bytes::str_equal(a.local.as_str(), local) {
            proof {
                assert(is_first_attribute(attrs@, ns@, local@, i as int));
                let c = choose|k: int| is_first_attribute(attrs@, ns@, local@, k);
                if c < i {
                } else if c > i {
                    assert(!attribute_has_name(attrs@[i as int], ns@, local@));
                }
            }
            return Some(i);
        }
        i = i + 1;
    }
    None
}

impl ElementData {
    /// The value of the attribute named `local` in no namespace, if any.
    pub fn get(&self, local: &str) -> (r: Option<&str>)
        ensures
            match r {
                Some(v) => attribute_value(self.attributes@, ""@, local@) == Some(v@),
                None => attribute_value(self.attributes@, ""@, local@) is None,
            },
    {
        match find_attribute(&self.attributes, "", local) {
            Some(i) => Some(self.attributes[i].value.as_str()),
            None => None,
        }
    }

    /// Whether there is an attribute named `local` in no namespace.
    pub fn contains(&self, local: &str) -> (r: bool)
        ensures
            r == has_attribute(self.attributes@, ""@, local@),
    {
        find_attribute(&self.attributes, "", local).is_some()
    }
}

impl Document {
    /// Whether node `i` exists and is an element.
    pub open spec fn is_element(self, i: int) -> bool {
        0 <= i < self.nodes@.len() && self.nodes@[i].data is Element
    }

    /// The well-formedness of the tree: every child index refers to a node
    /// whose parent is the node that lists it; every parent index refers to
    /// an earlier node that lists the child, so that following parents
    /// always ends at a root; no node lists a child twice; and no element
    /// has two attributes with the same expanded name.
    pub open spec fn wf(self) -> bool {
        &&& forall|n: int, k: int|
            0 <= n < self.nodes@.len() && 0 <= k < self.nodes@[n].children@.len() ==> {
                let c = #[trigger] self.nodes@[n].children@[k];
                &&& c < self.nodes@.len()
                &&& self.nodes@[c as int].parent == Some(n as usize)
            }
        &&& forall|c: int|
            0 <= c < self.nodes@.len() && (#[trigger] self.nodes@[c]).parent is Some ==> {
                let p = self.nodes@[c].parent->0;
                &&& p < c
                &&& self.nodes@[p as int].children@.contains(c as usize)
            }
        &&& forall|n: int, k1: int, k2: int|
            #![trigger self.nodes@[n].children@[k1], self.nodes@[n].children@[k2]]
            0 <= n < self.nodes@.len() && 0 <= k1 < k2 < self.nodes@[n].children@.len()
                ==> self.nodes@[n].children@[k1] != self.nodes@[n].children@[k2]
        &&& forall|i: int|
            0 <= i < self.nodes@.len() && (#[trigger] self.nodes@[i]).data is Element
                ==> attributes_unique(self.nodes@[i].data->Element_0.attributes@)
    }

    /// The depth of node `i`: 0 for a node without a parent, and one more
    /// than its parent's depth otherwise.
    pub open spec fn depth(self, i: int) -> nat
        decreases i,
    {
        if 0 <= i < self.nodes@.len() {
            match self.nodes@[i].parent {
                Some(p) => if (p as int) < i {
                    self.depth(p as int) + 1
                } else {
                    0
                },
                None => 0,
            }
        } else {
            0
        }
    }
}


/// Whether no two attributes have the same expanded name.
pub fn attributes_are_unique(attrs: &Vec<Attribute>) -> (r: bool)
    ensures
        r == attributes_unique(attrs@),
{
    let mut j2: usize = 0;
    while j2 < attrs.len()
        invariant
            j2 <= attrs@.len(),
            forall|a: int, b: int|
                0 <= a < b < j2 ==> !attribute_has_name(
                    #[trigger] attrs@[a],
                    (#[trigger] attrs@[b]).ns@,
                    attrs@[b].local@,
                ),
        decreases attrs@.len() - j2,
    {
        let b = &attrs[j2];
        let mut j1: usize = 0;
        while j1 < j2
            invariant
                j2 < attrs@.len(),
                j1 <= j2,
                *b == attrs@[j2 as int],
                forall|a: int, bb: int|
                    0 <= a < bb < j2 ==> !attribute_has_name(
                        #[trigger] attrs@[a],
                        (#[trigger] attrs@[bb]).ns@,
                        attrs@[bb].local@,
                    ),
                forall|a: int| 0 <= a < j1 ==> !attribute_has_name(#[trigger] attrs@[a], b.ns@, b.local@),
            decreases j2 - j1,
        {
            let a = &attrs[j1];
            if crate::bytes::str_equal(a.ns.as_str(), b.ns.as_str()) && crate::bytes::str_equal(
                a.local.as_str(),
                b.local.as_str(),
            ) {
                return false;
            }
            j1 = j1 + 1;
        }
        j2 = j2 + 1;
    }
    true
}

/// Whether `x` occurs in `v`.
fn contains_index(v: &Vec<usize>, x: usize) -> (r: bool)
    ensures
        r == v@.contains(x),
{
    let mut i: usize = 0;
    while i < v.len()
        invariant
            i <= v@.len(),
            forall|j: int| 0 <= j < i ==> v@[j] != x,
        decreases v@.len() - i,
    {
        if v[i] == x {
            return true;
        }
        i = i + 1;
    }
    false
}

impl Document {
    /// Checks the well-formedness of the tree.
    pub fn is_well_formed(&self) -> (r: bool)
        ensures
            r == self.wf(),
    {
        let len = self.nodes.len();
        let mut n: usize = 0;
        while n < len
            invariant
                len == self.nodes@.len(),
                n <= len,
                forall|m: int, k: int|
                    0 <= m < n && 0 <= k < self.nodes@[m].children@.len() ==> {
                        let c = #[trigger] self.nodes@[m].children@[k];
                        &&& c < self.nodes@.len()
                        &&& self.nodes@[c as int].parent == Some(m as usize)
                    },
                forall|m: int, k1: int, k2: int|
                    #![trigger self.nodes@[m].children@[k1], self.nodes@[m].children@[k2]]
                    0 <= m < n && 0 <= k1 < k2 < self.nodes@[m].children@.len()
                        ==> self.nodes@[m].children@[k1] != self.nodes@[m].children@[k2],
            decreases len - n,
        {
            let children = &self.nodes[n].children;
            let mut k: usize = 0;
            while k < children.len()
                invariant
                    len == self.nodes@.len(),
                    n < len,
                    children == &self.nodes@[n as int].children,
                    k <= children@.len(),
                    forall|j: int|
                        0 <= j < k ==> {
                            let c = #[trigger] children@[j];
                            &&& c < self.nodes@.len()
                            &&& self.nodes@[c as int].parent == Some(n)
                        },
                    forall|j1: int, j2: int|
                        #![trigger children@[j1], children@[j2]]
                        0 <= j1 < j2 < children@.len() && j1 < k ==> children@[j1] != children@[j2],
                decreases children@.len() - k,
            {
                let c = children[k];
                if c >= len {
                    return false;
                }
                match self.nodes[c].parent {
                    Some(p) => {
                        if p != n {
                            return false;
                        }
                    },
                    None => {
                        return false;
                    },
                }
                let mut k2: usize = k + 1;
                while k2 < children.len()
                    invariant
                        n < self.nodes@.len(),
                        children == &self.nodes@[n as int].children,
                        k < children@.len(),
                        k < k2 <= children@.len(),
                        c == children@[k as int],
                        forall|j2: int| k < j2 < k2 ==> c != #[trigger] children@[j2],
                    decreases children@.len() - k2,
                {
                    if children[k2] == c {
                        assert(self.nodes@[n as int].children@[k as int] == self.nodes@[n as int].children@[k2 as int]);
                        return false;
                    }
                    k2 = k2 + 1;
                }
                k = k + 1;
            }
            n = n + 1;
        }
        let mut c: usize = 0;
        while c < len
            invariant
                len == self.nodes@.len(),
                c <= len,
                forall|d: int|
                    0 <= d < c && (#[trigger] self.nodes@[d]).parent is Some ==> {
                        let p = self.nodes@[d].parent->0;
                        &&& p < d
                        &&& self.nodes@[p as int].children@.contains(d as usize)
                    },
                forall|d: int|
                    0 <= d < c && (#[trigger] self.nodes@[d]).data is Element
                        ==> attributes_unique(self.nodes@[d].data->Element_0.attributes@),
            decreases len - c,
        {
            match self.nodes[c].parent {
                Some(p) => {
                    if p >= c {
                        return false;
                    }
                    if !contains_index(&self.nodes[p].children, c) {
                        return false;
                    }
                },
                None => {},
            }
            match &self.nodes[c].data {
                NodeData::Element(e) => {
                    if !attributes_are_unique(&e.attributes) {
                        return false;
                    }
                },
                _ => {},
            }
            c = c + 1;
        }
        true
    }
}


/// A child that `:empty` ignores: anything but an element or a text of at
/// least one character.
pub open spec fn ignored_by_empty(c: usize, doc: Document) -> bool {
    match doc.nodes@[c as int].data {
        NodeData::Element(_) => false,
        NodeData::Text(t) => t@.len() == 0,
        _ => true,
    }
}

/// The position of the first occurrence of `x` in `cs`.
pub open spec fn index_of(cs: Seq<usize>, x: usize) -> int {
    choose|k: int| 0 <= k < cs.len() && cs[k] == x
}

impl Document {
    /// The children of node `i`, in order.
    pub open spec fn children_of(self, i: int) -> Seq<usize> {
        self.nodes@[i].children@
    }

    /// `cs[q]` is the first element among `cs[m..]`.
    pub open spec fn is_first_element_from(self, cs: Seq<usize>, m: int, q: int) -> bool {
        &&& 0 <= m <= q < cs.len()
        &&& self.is_element(cs[q] as int)
        &&& forall|r: int| m <= r < q ==> !self.is_element(#[trigger] cs[r] as int)
    }

    /// The first element among `cs[m..]`, if any.
    pub open spec fn first_element_from(self, cs: Seq<usize>, m: int) -> Option<usize> {
        if exists|q: int| self.is_first_element_from(cs, m, q) {
            Some(cs[choose|q: int| self.is_first_element_from(cs, m, q)])
        } else {
            None
        }
    }

    /// `cs[q]` is the last element among `cs[..m]`.
    pub open spec fn is_last_element_before(self, cs: Seq<usize>, m: int, q: int) -> bool {
        &&& 0 <= q < m <= cs.len()
        &&& self.is_element(cs[q] as int)
        &&& forall|r: int| q < r < m ==> !self.is_element(#[trigger] cs[r] as int)
    }

    /// The last element among `cs[..m]`, if any.
    pub open spec fn last_element_before(self, cs: Seq<usize>, m: int) -> Option<usize> {
        if exists|q: int| self.is_last_element_before(cs, m, q) {
            Some(cs[choose|q: int| self.is_last_element_before(cs, m, q)])
        } else {
            None
        }
    }

    /// The parent of node `i` when that parent is an element.
    pub open spec fn parent_element(self, i: int) -> Option<usize> {
        match self.nodes@[i].parent {
            Some(p) => if self.is_element(p as int) {
                Some(p)
            } else {
                None
            },
            None => None,
        }
    }

    /// The nearest element before node `i` among its parent's children.
    pub open spec fn prev_sibling_element(self, i: int) -> Option<usize> {
        match self.nodes@[i].parent {
            Some(p) => {
                let cs = self.children_of(p as int);
                self.last_element_before(cs, index_of(cs, i as usize))
            },
            None => None,
        }
    }

    /// The nearest element after node `i` among its parent's children.
    pub open spec fn next_sibling_element(self, i: int) -> Option<usize> {
        match self.nodes@[i].parent {
            Some(p) => {
                let cs = self.children_of(p as int);
                self.first_element_from(cs, index_of(cs, i as usize) + 1)
            },
            None => None,
        }
    }

    /// The first child of node `i` that is an element.
    pub open spec fn first_element_child(self, i: int) -> Option<usize> {
        self.first_element_from(self.children_of(i), 0)
    }

    /// Whether a child counts as content: an element, or a non-empty text.
    pub open spec fn is_content(self, c: int) -> bool {
        match self.nodes@[c].data {
            NodeData::Element(_) => true,
            NodeData::Text(t) => t@.len() != 0,
            _ => false,
        }
    }

    /// Node `i` has no element child and no non-empty text child.
    pub open spec fn is_empty(self, i: int) -> bool {
        forall|k: int| 0 <= k < self.children_of(i).len() ==> !self.is_content(#[trigger] self.children_of(i)[k] as int)
    }

    /// The parent of node `i` is the document node.
    pub open spec fn is_root(self, i: int) -> bool {
        match self.nodes@[i].parent {
            Some(p) => self.nodes@[p as int].data is Document,
            None => false,
        }
    }

    /// Whether node `i` is an element.
    pub fn node_is_element(&self, i: usize) -> (r: bool)
        requires
            i < self.nodes@.len(),
        ensures
            r == self.is_element(i as int),
    {
        match self.nodes[i].data {
            NodeData::Element(_) => true,
            _ => false,
        }
    }

    /// The first element among `cs[m..]`.
    pub fn find_first_element_from(&self, cs: &Vec<usize>, m: usize) -> (r: Option<usize>)
        requires
            forall|k: int| 0 <= k < cs@.len() ==> #[trigger] cs@[k] < self.nodes@.len(),
        ensures
            r == self.first_element_from(cs@, m as int),
    {
        let mut q: usize = m;
        while q < cs.len()
            invariant
                m <= q,
                forall|k: int| 0 <= k < cs@.len() ==> #[trigger] cs@[k] < self.nodes@.len(),
                forall|r: int| m <= r < q ==> !self.is_element(#[trigger] cs@[r] as int),
            decreases cs@.len() - q,
        {
            if self.node_is_element(cs[q]) {
                proof {
                    assert(self.is_first_element_from(cs@, m as int, q as int));
                    let c = choose|c: int| self.is_first_element_from(cs@, m as int, c);
                    if c < q {
                    } else if c > q {
                        assert(!self.is_element(cs@[q as int] as int));
                    }
                }
                return Some(cs[q]);
            }
            q = q + 1;
        }
        None
    }

    /// The last element among `cs[..m]`.
    pub fn find_last_element_before(&self, cs: &Vec<usize>, m: usize) -> (r: Option<usize>)
        requires
            m <= cs@.len(),
            forall|k: int| 0 <= k < cs@.len() ==> #[trigger] cs@[k] < self.nodes@.len(),
        ensures
            r == self.last_element_before(cs@, m as int),
    {
        let mut q: usize = m;
        while q > 0
            invariant
                q <= m <= cs@.len(),
                forall|k: int| 0 <= k < cs@.len() ==> #[trigger] cs@[k] < self.nodes@.len(),
                forall|r: int| q <= r < m ==> !self.is_element(#[trigger] cs@[r] as int),
            decreases q,
        {
            if self.node_is_element(cs[q - 1]) {
                proof {
                    let q1 = (q - 1) as int;
                    assert(self.is_last_element_before(cs@, m as int, q1));
                    let c = choose|c: int| self.is_last_element_before(cs@, m as int, c);
                    if c < q1 {
                        assert(!self.is_element(cs@[q1] as int));
                    } else if c > q1 {
                    }
                }
                return Some(cs[q - 1]);
            }
            q = q - 1;
        }
        None
    }
}

/// The position of `x` in `v`, which holds it exactly once.
pub fn position_of(v: &Vec<usize>, x: usize) -> (r: usize)
    requires
        v@.contains(x),
        forall|k1: int, k2: int| 0 <= k1 < k2 < v@.len() ==> #[trigger] v@[k1] != #[trigger] v@[k2],
    ensures
        r < v@.len(),
        v@[r as int] == x,
        r == index_of(v@, x),
{
    let mut i: usize = 0;
    while i < v.len()
        invariant
            v@.contains(x),
            forall|k1: int, k2: int| 0 <= k1 < k2 < v@.len() ==> #[trigger] v@[k1] != #[trigger] v@[k2],
            i <= v@.len(),
            forall|j: int| 0 <= j < i ==> v@[j] != x,
        decreases v@.len() - i,
    {
        if v[i] == x {
            proof {
                let k = index_of(v@, x);
                assert(0 <= k < v@.len() && v@[k] == x);
                if k > i {
                    assert(v@[i as int] == v@[k]);
                }
            }
            return i;
        }
        i = i + 1;
    }
    proof {
        let k = choose|k: int| 0 <= k < v@.len() && v@[k] == x;
        assert(v@[k] != x);
    }
    0
}


/// `index_of` finds an element that `cs` holds.
proof fn lemma_index_of(cs: Seq<usize>, x: usize)
    requires
        cs.contains(x),
    ensures
        0 <= index_of(cs, x) < cs.len(),
        cs[index_of(cs, x)] == x,
{
}

/// In a sequence without repetitions, `index_of` finds the one position of an element.
proof fn lemma_index_of_unique(cs: Seq<usize>, k: int, x: usize)
    requires
        0 <= k < cs.len(),
        cs[k] == x,
        forall|k1: int, k2: int| 0 <= k1 < k2 < cs.len() ==> #[trigger] cs[k1] != #[trigger] cs[k2],
    ensures
        index_of(cs, x) == k,
{
    assert(cs.contains(x));
    let j = index_of(cs, x);
    assert(cs[j] == x);
    if j < k {
        assert(cs[j] == cs[k]);
    } else if j > k {
        assert(cs[k] == cs[j]);
    }
}

impl Document {
    /// Node `i`'s parent lists it at position `index_of`, and lists no node twice.
    proof fn lemma_sibling_position(self, i: usize)
        requires
            self.wf(),
            i < self.nodes@.len(),
            self.nodes@[i as int].parent is Some,
        ensures
            ({
                let p = self.nodes@[i as int].parent->0 as int;
                let cs = self.children_of(p);
                &&& 0 <= p < self.nodes@.len()
                &&& 0 <= index_of(cs, i) < cs.len()
                &&& cs[index_of(cs, i)] == i
                &&& forall|k1: int, k2: int| 0 <= k1 < k2 < cs.len() ==> #[trigger] cs[k1] != #[trigger] cs[k2]
                &&& forall|k: int| 0 <= k < cs.len() ==> #[trigger] cs[k] < self.nodes@.len() && self.nodes@[cs[k] as int].parent == Some(p as usize)
            }),
    {
        let p = self.nodes@[i as int].parent->0 as int;
        let cs = self.children_of(p);
        assert(self.nodes@[i as int].parent is Some);
        lemma_index_of(cs, i);
        assert forall|k1: int, k2: int| 0 <= k1 < k2 < cs.len() implies #[trigger] cs[k1] != #[trigger] cs[k2] by {
            assert(self.nodes@[p].children@[k1] != self.nodes@[p].children@[k2]);
        }
        assert forall|k: int| 0 <= k < cs.len() implies #[trigger] cs[k] < self.nodes@.len() && self.nodes@[cs[k] as int].parent == Some(p as usize) by {
            assert(self.nodes@[p].children@[k] == cs[k]);
        }
    }

    /// The element that follows an element among its siblings has it as the
    /// element before it: `next_sibling_element` and `prev_sibling_element`
    /// undo each other.
    pub proof fn lemma_next_then_prev_sibling(self, i: usize)
        requires
            self.wf(),
            self.is_element(i as int),
            self.next_sibling_element(i as int) is Some,
        ensures
            ({
                let n = self.next_sibling_element(i as int)->0 as int;
                &&& self.is_element(n)
                &&& self.nodes@[n].parent == self.nodes@[i as int].parent
                &&& self.prev_sibling_element(n) == Some(i)
            }),
    {
        self.lemma_sibling_position(i);
        let p = self.nodes@[i as int].parent->0 as int;
        let cs = self.children_of(p);
        let k = index_of(cs, i);
        let m = k + 1;
        let q = choose|q: int| self.is_first_element_from(cs, m, q);
        let n = cs[q] as int;
        assert(self.nodes@[n].parent == Some(p as usize));
        lemma_index_of_unique(cs, q, n as usize);
        assert(self.is_last_element_before(cs, q, k));
        let c = choose|c: int| self.is_last_element_before(cs, q, c);
        if c < k {
            assert(!self.is_element(cs[k] as int));
        } else if c > k {
            assert(!self.is_element(cs[c] as int));
        }
    }

    /// The element before an element among its siblings has it as the
    /// element after it.
    pub proof fn lemma_prev_then_next_sibling(self, i: usize)
        requires
            self.wf(),
            self.is_element(i as int),
            self.prev_sibling_element(i as int) is Some,
        ensures
            ({
                let b = self.prev_sibling_element(i as int)->0 as int;
                &&& self.is_element(b)
                &&& self.nodes@[b].parent == self.nodes@[i as int].parent
                &&& self.next_sibling_element(b) == Some(i)
            }),
    {
        self.lemma_sibling_position(i);
        let p = self.nodes@[i as int].parent->0 as int;
        let cs = self.children_of(p);
        let k = index_of(cs, i);
        let q = choose|q: int| self.is_last_element_before(cs, k, q);
        let b = cs[q] as int;
        assert(self.nodes@[b].parent == Some(p as usize));
        lemma_index_of_unique(cs, q, b as usize);
        let m = q + 1;
        assert(self.is_first_element_from(cs, m, k));
        let c = choose|c: int| self.is_first_element_from(cs, m, c);
        if c < k {
            assert(!self.is_element(cs[c] as int));
        } else if c > k {
            assert(!self.is_element(cs[k] as int));
        }
    }

    /// The first element child of an element has that element as its parent element.
    pub proof fn lemma_first_child_parent(self, i: usize)
        requires
            self.wf(),
            self.is_element(i as int),
            self.first_element_child(i as int) is Some,
        ensures
            self.is_element(self.first_element_child(i as int)->0 as int),
            self.parent_element(self.first_element_child(i as int)->0 as int) == Some(i),
    {
        let cs = self.children_of(i as int);
        let q = choose|q: int| self.is_first_element_from(cs, 0, q);
        assert(self.nodes@[i as int].children@[q] == cs[q]);
    }

    /// The parent element of an element lists it among its children.
    pub proof fn lemma_parent_lists_child(self, i: usize)
        requires
            self.wf(),
            self.is_element(i as int),
            self.parent_element(i as int) is Some,
        ensures
            self.is_element(self.parent_element(i as int)->0 as int),
            self.children_of(self.parent_element(i as int)->0 as int).contains(i),
    {
        assert(self.nodes@[i as int].parent is Some);
    }

    /// A root element, whose parent is the document node, has no parent element.
    pub proof fn lemma_root_has_no_parent_element(self, i: usize)
        requires
            self.wf(),
            self.is_element(i as int),
            self.is_root(i as int),
        ensures
            self.parent_element(i as int) is None,
    {
    }

    /// An empty element has no element child.
    pub proof fn lemma_empty_has_no_element_child(self, i: usize)
        requires
            self.wf(),
            self.is_element(i as int),
            self.is_empty(i as int),
        ensures
            self.first_element_child(i as int) is None,
    {
        let cs = self.children_of(i as int);
        if exists|q: int| self.is_first_element_from(cs, 0, q) {
            let q = choose|q: int| self.is_first_element_from(cs, 0, q);
            assert(self.nodes@[i as int].children@[q] == cs[q]);
            assert(!self.is_content(cs[q] as int));
        }
    }
}


impl Document {
    /// The tree has no cycles: a node's parent comes before it and is one
    /// level shallower, so following parents from any node reaches a root
    /// after exactly `depth` steps, and no node is its own parent.
    pub proof fn lemma_parent_is_shallower(self, i: usize)
        requires
            self.wf(),
            i < self.nodes@.len(),
            self.nodes@[i as int].parent is Some,
        ensures
            ({
                let p = self.nodes@[i as int].parent->0;
                &&& p < i
                &&& self.depth(i as int) == self.depth(p as int) + 1
            }),
    {
        assert(self.nodes@[i as int].parent is Some);
    }

    /// A node without a parent is at depth 0, and only such a node is.
    pub proof fn lemma_depth_zero_is_root(self, i: usize)
        requires
            self.wf(),
            i < self.nodes@.len(),
        ensures
            (self.depth(i as int) == 0) == (self.nodes@[i as int].parent is None),
    {
        assert(self.nodes@[i as int].parent is Some ==> self.nodes@[i as int].parent->0 < i);
    }
}


impl Document {
    /// `:empty` fails exactly when some child is an element or a text of at
    /// least one character; comments, processing instructions, doctypes and
    /// empty texts do not count.
    pub proof fn lemma_empty_means_no_element_or_text(self, i: usize)
        requires
            i < self.nodes@.len(),
        ensures
            self.is_empty(i as int) == forall|k: int|
                0 <= k < self.nodes@[i as int].children@.len() ==> ignored_by_empty(
                    #[trigger] self.nodes@[i as int].children@[k],
                    self,
                ),
    {
        let cs = self.nodes@[i as int].children@;
        if self.is_empty(i as int) {
            assert forall|k: int| 0 <= k < cs.len() implies ignored_by_empty(#[trigger] cs[k], self) by {
                assert(self.children_of(i as int)[k] == cs[k]);
                assert(!self.is_content(self.children_of(i as int)[k] as int));
            }
        }
        if forall|k: int| 0 <= k < cs.len() ==> ignored_by_empty(#[trigger] cs[k], self) {
            assert forall|k: int| 0 <= k < self.children_of(i as int).len() implies !self.is_content(
                #[trigger] self.children_of(i as int)[k] as int,
            ) by {
                assert(self.children_of(i as int)[k] == cs[k]);
                assert(ignored_by_empty(cs[k], self));
            }
        }
    }

    /// A child that is a non-empty text makes its parent not `:empty`.
    pub proof fn lemma_text_child_not_empty(self, i: usize, k: int)
        requires
            i < self.nodes@.len(),
            0 <= k < self.nodes@[i as int].children@.len(),
            self.nodes@[self.nodes@[i as int].children@[k] as int].data matches NodeData::Text(t)
                && t@.len() > 0,
        ensures
            !self.is_empty(i as int),
    {
        assert(!self.is_content(self.children_of(i as int)[k] as int) == false);
    }
}

} // verus!
