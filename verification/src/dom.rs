//! The document tree that the HTML extraction engine walks: a flat list of
//! element nodes in document (preorder) position, each carrying its tag, its
//! attributes, the concatenated text of its descendant text nodes, and the
//! index of its enclosing element. The HTML collaborator that parses raw
//! markup hands the library this plain-value form; every query the engine
//! makes against it is verified here.

use vstd::prelude::*;
use crate::text::str_eq;

verus! {

/// One attribute of an element node.
#[derive(Debug, Clone, PartialEq)]
pub struct Attr {
    pub name: String,
    pub value: String,
}

/// The mathematical model of an attribute.
pub struct AttrModel {
    pub name: Seq<char>,
    pub value: Seq<char>,
}

impl View for Attr {
    type V = AttrModel;

    open spec fn view(&self) -> AttrModel {
        AttrModel { name: self.name@, value: self.value@ }
    }
}

impl DeepView for Attr {
    type V = AttrModel;

    open spec fn deep_view(&self) -> AttrModel {
        self.view()
    }
}

/// One element node of the tree. Tags and attribute names are expected in
/// the lower-case form an HTML parser produces; `text` is the concatenation
/// of all descendant text nodes, untrimmed.
#[derive(Debug)]
pub(crate) struct DomNode {
    pub(crate) tag: String,
    pub(crate) attrs: Vec<Attr>,
    pub(crate) text: String,
    pub(crate) parent: Option<usize>,
}

/// The mathematical model of an element node.
pub struct NodeModel {
    pub tag: Seq<char>,
    pub attrs: Seq<AttrModel>,
    pub text: Seq<char>,
    pub parent: Option<int>,
}

impl View for DomNode {
    type V = NodeModel;

    closed spec fn view(&self) -> NodeModel {
        NodeModel {
            tag: self.tag@,
            attrs: self.attrs.deep_view(),
            text: self.text@,
            parent: match self.parent {
                Some(p) => Some(p as int),
                None => None,
            },
        }
    }
}

impl DeepView for DomNode {
    type V = NodeModel;

    closed spec fn deep_view(&self) -> NodeModel {
        self.view()
    }
}

/// The node at `j` names a parent that stands strictly before it.
pub open spec fn parent_ok(ns: Seq<NodeModel>, j: int) -> bool {
    match ns[j].parent {
        Some(p) => 0 <= p < j,
        None => true,
    }
}

/// Every parent reference points strictly backwards, as a preorder listing
/// of a tree guarantees.
pub open spec fn dom_wf(ns: Seq<NodeModel>) -> bool {
    forall|j: int| 0 <= j < ns.len() ==> #[trigger] parent_ok(ns, j)
}

/// Under `dom_wf`, any in-bounds node has a parent reference that points
/// strictly backwards.
proof fn lemma_wf_parent_ok(ns: Seq<NodeModel>, k: int)
    requires
        dom_wf(ns),
        0 <= k < ns.len(),
    ensures
        parent_ok(ns, k),
{
}

/// `j` lies in the subtree rooted at `anc` (including `anc` itself),
/// following parent references.
pub open spec fn in_subtree(ns: Seq<NodeModel>, anc: int, j: int) -> bool
    decreases j,
{
    j == anc || (0 <= j < ns.len() && match ns[j].parent {
        Some(p) => 0 <= p < j && in_subtree(ns, anc, p),
        None => false,
    })
}

/// `j` is a strict descendant of `anc`.
pub open spec fn strict_in_subtree(ns: Seq<NodeModel>, anc: int, j: int) -> bool {
    0 <= j < ns.len() && match ns[j].parent {
        Some(p) => in_subtree(ns, anc, p),
        None => false,
    }
}

/// Some strict ancestor of `j` carries the tag `tag`.
pub open spec fn has_ancestor_tag(ns: Seq<NodeModel>, j: int, tag: Seq<char>) -> bool
    decreases j,
{
    0 <= j < ns.len() && match ns[j].parent {
        Some(p) => 0 <= p < j && (ns[p].tag == tag || has_ancestor_tag(ns, p, tag)),
        None => false,
    }
}

/// The value of the first attribute of `n` named `name`, starting the
/// search at position `k`.
pub open spec fn attr_val_from(attrs: Seq<AttrModel>, name: Seq<char>, k: int) -> Option<
    Seq<char>,
>
    decreases attrs.len() - k,
{
    if !(0 <= k < attrs.len()) {
        None
    } else if attrs[k].name == name {
        Some(attrs[k].value)
    } else {
        attr_val_from(attrs, name, k + 1)
    }
}

/// The value of the first attribute of `n` named `name`, if any.
pub open spec fn attr_val(n: NodeModel, name: Seq<char>) -> Option<Seq<char>> {
    attr_val_from(n.attrs, name, 0)
}

/// A parsed document tree in plain values. Built once by the caller that
/// owns the HTML collaborator, then queried read-only by the extraction
/// engine.
#[derive(Debug)]
pub struct Dom {
    nodes: Vec<DomNode>,
}

impl View for Dom {
    type V = Seq<NodeModel>;

    closed spec fn view(&self) -> Seq<NodeModel> {
        self.nodes.deep_view()
    }
}

impl Dom {
    /// Every node of this tree names a parent that stands before it.
    pub open spec fn wf(self) -> bool {
        dom_wf(self@)
    }

    pub fn new() -> (d: Dom)
        ensures
            d@ == Seq::<NodeModel>::empty(),
            d.wf(),
    {
        let d = Dom { nodes: Vec::new() };
        proof {
            assert(d@ =~= Seq::<NodeModel>::empty());
        }
        d
    }

    pub fn len(&self) -> (n: usize)
        ensures
            n == self@.len(),
    {
        self.nodes.len()
    }

    /// Appends one node. The parent, if given, must be a node already
    /// present; otherwise nothing is added. A caller that appends nodes in
    /// document preorder with the enclosing element as parent thus always
    /// builds a well-formed tree.
    pub fn push_node(
        &mut self,
        tag: String,
        attrs: Vec<Attr>,
        text: String,
        parent: Option<usize>,
    ) -> (ok: bool)
        ensures
            ok == (match parent {
                Some(p) => p < old(self)@.len(),
                None => true,
            }),
            ok ==> final(self)@ == old(self)@.push(
                NodeModel {
                    tag: tag@,
                    attrs: attrs.deep_view(),
                    text: text@,
                    parent: (match parent {
                        Some(p) => Some(p as int),
                        None => None,
                    }),
                },
            ),
            !ok ==> final(self)@ == old(self)@,
            old(self).wf() ==> final(self).wf(),
    {
        if let Some(p) = parent {
            if p >= self.nodes.len() {
                return false;
            }
        }
        let node = DomNode { tag, attrs, text, parent };
        let ghost prior = self@;
        let ghost nm = node@;
        self.nodes.push(node);
        proof {
            assert(self@ =~= prior.push(nm));
            if dom_wf(prior) {
                assert forall|j: int| 0 <= j < self@.len() implies parent_ok(self@, j) by {
                    if j < prior.len() {
                        assert(parent_ok(prior, j));
                    }
                }
            }
        }
        true
    }

    /// Checks well-formedness at run time, for callers that did not
    /// build the tree through this type's own constructors.
    pub fn check_wf(&self) -> (b: bool)
        ensures
            b == self.wf(),
    {
        let n = self.nodes.len();
        let mut i: usize = 0;
        while i < n
            invariant
                0 <= i <= n,
                n == self@.len(),
                forall|j: int| 0 <= j < i ==> parent_ok(self@, j),
            decreases n - i,
        {
            match self.nodes[i].parent {
                Some(p) => {
                    if p >= i {
                        assert(!parent_ok(self@, i as int));
                        return false;
                    }
                },
                None => {},
            }
            proof {
                assert(parent_ok(self@, i as int));
            }
            i = i + 1;
        }
        true
    }

    pub(crate) fn tag_is(&self, i: usize, t: &str) -> (r: bool)
        requires
            i < self@.len(),
        ensures
            r == (self@[i as int].tag == t@),
    {
        str_eq(self.nodes[i].tag.as_str(), t)
    }

    pub(crate) fn text_of(&self, i: usize) -> (r: &String)
        requires
            i < self@.len(),
        ensures
            r@ == self@[i as int].text,
    {
        &self.nodes[i].text
    }

    pub(crate) fn parent_of(&self, i: usize) -> (r: Option<usize>)
        requires
            i < self@.len(),
        ensures
            self@[i as int].parent == (match r {
                Some(p) => Some(p as int),
                None => None::<int>,
            }),
    {
        self.nodes[i].parent
    }

    /// The value of the first attribute named `name` of node `i`.
    pub(crate) fn attr(&self, i: usize, name: &str) -> (r: Option<String>)
        requires
            i < self@.len(),
        ensures
            r.deep_view() == attr_val(self@[i as int], name@),
    {
        let attrs = &self.nodes[i].attrs;
        let n = attrs.len();
        let mut k: usize = 0;
        while k < n
            invariant
                0 <= k <= n,
                n == attrs.deep_view().len(),
                attrs.deep_view() == self@[i as int].attrs,
                attr_val(self@[i as int], name@) == attr_val_from(attrs.deep_view(), name@, k as int),
            decreases n - k,
        {
            if str_eq(attrs[k].name.as_str(), name) {
                return Some(attrs[k].value.clone());
            }
            k = k + 1;
        }
        None
    }

    /// Whether node `j` is a strict descendant of node `anc`.
    pub(crate) fn is_descendant(&self, anc: usize, j: usize) -> (r: bool)
        requires
            self.wf(),
            anc < self@.len(),
            j < self@.len(),
        ensures
            r == strict_in_subtree(self@, anc as int, j as int),
    {
        let mut cur: usize;
        match self.nodes[j].parent {
            None => {
                return false;
            },
            Some(p) => {
                cur = p;
            },
        }
        proof {
            assert(parent_ok(self@, j as int));
        }
        loop
            invariant
                dom_wf(self@),
                anc < self@.len(),
                0 <= cur < self@.len(),
                strict_in_subtree(self@, anc as int, j as int) == in_subtree(
                    self@,
                    anc as int,
                    cur as int,
                ),
            decreases cur,
        {
            if cur == anc {
                return true;
            }
            match self.nodes[cur].parent {
                None => {
                    return false;
                },
                Some(p) => {
                    proof {
                        lemma_wf_parent_ok(self@, cur as int);
                    }
                    cur = p;
                },
            }
        }
    }

    /// Whether some strict ancestor of node `j` carries the tag `tag`.
    pub(crate) fn has_ancestor(&self, j: usize, tag: &str) -> (r: bool)
        requires
            self.wf(),
            j < self@.len(),
        ensures
            r == has_ancestor_tag(self@, j as int, tag@),
    {
        let mut cur: usize = j;
        loop
            invariant
                dom_wf(self@),
                0 <= cur < self@.len(),
                has_ancestor_tag(self@, j as int, tag@) == has_ancestor_tag(
                    self@,
                    cur as int,
                    tag@,
                ),
            decreases cur,
        {
            match self.nodes[cur].parent {
                None => {
                    return false;
                },
                Some(p) => {
                    proof {
                        lemma_wf_parent_ok(self@, cur as int);
                    }
                    if self.tag_is(p, tag) {
                        return true;
                    }
                    cur = p;
                },
            }
        }
    }
}

} // verus!
