//! The library's own model of a parsed syntax tree: every element carries a
//! kind tag and a byte span into the original source; composite nodes carry
//! their children in source order, leaf tokens have none.

use vstd::prelude::*;
use crate::span::TextSpan;

verus! {

/// The syntactic role of an element. The kinds the bundled lint rules
/// inspect are distinguished; every other composite node keeps its raw
/// kind tag as `OtherNode`, and every leaf token keeps its as `Token`.
#[derive(Clone, Copy, Debug, PartialEq, Eq, Structural)]
pub enum NodeKind {
    /// A `key = value;` binding.
    KeyValue,
    /// The (possibly dotted) key of a binding.
    Key,
    /// A `set.attribute` selection.
    Select,
    /// An identifier node.
    Ident,
    /// Any other composite node, with its raw kind tag.
    OtherNode(u16),
    /// A leaf token, with its raw kind tag.
    Token(u16),
}

impl NodeKind {
    /// Composite nodes are everything but leaf tokens.
    pub open spec fn is_node(self) -> bool {
        !(self is Token)
    }
}

/// One element of the parsed tree.
pub struct Element {
    pub kind: NodeKind,
    pub span: TextSpan,
    pub children: Vec<Element>,
}

/// The `n`-th composite (non-token) child of a child sequence, counting
/// from zero, in source order.
pub open spec fn nth_node(cs: Seq<Element>, n: nat) -> Option<Element>
    decreases cs.len(),
{
    if cs.len() == 0 {
        None
    } else if cs[0].kind.is_node() {
        if n == 0 {
            Some(cs[0])
        } else {
            nth_node(cs.drop_first(), (n - 1) as nat)
        }
    } else {
        nth_node(cs.drop_first(), n)
    }
}

impl Element {
    /// The `n`-th composite child of this element, as rnix-style typed
    /// accessors count them.
    pub open spec fn spec_child_node(self, n: nat) -> Option<Element> {
        nth_node(self.children@, n)
    }

    /// Fetch the `n`-th composite child.
    pub fn child_node(&self, n: usize) -> (r: Option<&Element>)
        ensures
            match r {
                Some(e) => self.spec_child_node(n as nat) == Some(*e),
                None => self.spec_child_node(n as nat) is None,
            },
    {
        let mut i: usize = 0;
        let mut rem: usize = n;
        proof {
            assert(self.children@.skip(0) =~= self.children@);
        }
        while i < self.children.len()
            invariant
                i <= self.children@.len(),
                rem <= n,
                nth_node(self.children@, n as nat) == nth_node(
                    self.children@.skip(i as int),
                    rem as nat,
                ),
            decreases self.children@.len() - i,
        {
            proof {
                assert(self.children@.skip(i as int).drop_first() =~= self.children@.skip(
                    i as int + 1,
                ));
                assert(self.children@.skip(i as int)[0] == self.children@[i as int]);
            }
            let c = &self.children[i];
            if matches!(c.kind, NodeKind::Token(_)) {
                i = i + 1;
            } else if rem == 0 {
                return Some(c);
            } else {
                rem = rem - 1;
                i = i + 1;
            }
        }
        proof {
            assert(self.children@.skip(self.children@.len() as int).len() == 0);
        }
        None
    }
}

} // verus!
