//! Textual self-description of a formula tree: one line per node, each
//! indented one tab deeper than its parent.

use vstd::prelude::*;
use crate::prop::{Prop, PropView};

verus! {

/// Height of the tree: the longest chain of nodes from the root down.
pub open spec fn height(p: PropView) -> nat
    decreases p,
{
    match p {
        PropView::Not(a) => height(*a) + 1,
        PropView::And(a, b) => 1 + if height(*a) > height(*b) {
            height(*a)
        } else {
            height(*b)
        },
        PropView::Or(a, b) => 1 + if height(*a) > height(*b) {
            height(*a)
        } else {
            height(*b)
        },
        PropView::Implic(a, b) => 1 + if height(*a) > height(*b) {
            height(*a)
        } else {
            height(*b)
        },
        PropView::Iff(a, b) => 1 + if height(*a) > height(*b) {
            height(*a)
        } else {
            height(*b)
        },
        _ => 1,
    }
}

/// `n` tab characters.
pub open spec fn tabs(n: nat) -> Seq<char>
    decreases n,
{
    if n == 0 {
        Seq::<char>::empty()
    } else {
        tabs((n - 1) as nat) + "\t"@
    }
}

/// The label printed for a node: its connective, or the symbol's name.
pub open spec fn label_of(p: PropView) -> Seq<char> {
    match p {
        PropView::True => "True"@,
        PropView::False => "False"@,
        PropView::Symbol(s) => s,
        PropView::Not(_) => "Not"@,
        PropView::And(_, _) => "And"@,
        PropView::Or(_, _) => "Or"@,
        PropView::Implic(_, _) => "Implic"@,
        PropView::Iff(_, _) => "Iff"@,
    }
}

/// The rendered tree from `p` down, each line indented `depth` tabs or
/// more.
pub open spec fn render(p: PropView, depth: nat) -> Seq<char>
    decreases p,
{
    let head = tabs(depth) + label_of(p) + "\n"@;
    match p {
        PropView::Not(a) => head + render(*a, depth + 1),
        PropView::And(a, b) => head + render(*a, depth + 1) + render(*b, depth + 1),
        PropView::Or(a, b) => head + render(*a, depth + 1) + render(*b, depth + 1),
        PropView::Implic(a, b) => head + render(*a, depth + 1) + render(*b, depth + 1),
        PropView::Iff(a, b) => head + render(*a, depth + 1) + render(*b, depth + 1),
        _ => head,
    }
}

/// `n` tabs as a string.
fn tabs_string(n: usize) -> (r: String)
    ensures
        r@ == tabs(n as nat),
{
    let mut s = String::new();
    let mut i: usize = 0;
    proof {
        assert(s@ =~= tabs(0));
    }
    while i < n
        invariant
            i <= n,
            s@ == tabs(i as nat),
        decreases n - i,
    {
        s.append("\t");
        i = i + 1;
    }
    s
}

impl Prop {
    /// The rendered description of the whole tree, from the root at
    /// indentation zero.
    pub fn print_tree(&self) -> (r: String)
        requires
            height(self@) <= usize::MAX,
        ensures
            r@ == render(self@, 0),
    {
        self.print_layer(0)
    }

    /// The rendered description of this subtree at the given depth.
    fn print_layer(&self, depth: usize) -> (r: String)
        requires
            depth + height(self@) <= usize::MAX,
        ensures
            r@ == render(self@, depth as nat),
        decreases self,
    {
        let mut s = tabs_string(depth);
        match self {
            Prop::True => {
                s.append("True");
                s.append("\n");
            },
            Prop::False => {
                s.append("False");
                s.append("\n");
            },
            Prop::Symbol(name) => {
                s.append(name.as_str());
                s.append("\n");
            },
            Prop::Not(u) => {
                s.append("Not");
                s.append("\n");
                proof {
                    assert(height(self@) == height(u.arg@) + 1);
                }
                let c = u.arg.print_layer(depth + 1);
                s.append(c.as_str());
            },
            Prop::And(b) => {
                s.append("And");
                s.append("\n");
                proof {
                    assert(height(self@) > height(b.lhs@) && height(self@) > height(b.rhs@));
                }
                let c1 = b.lhs.print_layer(depth + 1);
                s.append(c1.as_str());
                let c2 = b.rhs.print_layer(depth + 1);
                s.append(c2.as_str());
            },
            Prop::Or(b) => {
                s.append("Or");
                s.append("\n");
                proof {
                    assert(height(self@) > height(b.lhs@) && height(self@) > height(b.rhs@));
                }
                let c1 = b.lhs.print_layer(depth + 1);
                s.append(c1.as_str());
                let c2 = b.rhs.print_layer(depth + 1);
                s.append(c2.as_str());
            },
            Prop::Implic(b) => {
                s.append("Implic");
                s.append("\n");
                proof {
                    assert(height(self@) > height(b.lhs@) && height(self@) > height(b.rhs@));
                }
                let c1 = b.lhs.print_layer(depth + 1);
                s.append(c1.as_str());
                let c2 = b.rhs.print_layer(depth + 1);
                s.append(c2.as_str());
            },
            Prop::Iff(b) => {
                s.append("Iff");
                s.append("\n");
                proof {
                    assert(height(self@) > height(b.lhs@) && height(self@) > height(b.rhs@));
                }
                let c1 = b.lhs.print_layer(depth + 1);
                s.append(c1.as_str());
                let c2 = b.rhs.print_layer(depth + 1);
                s.append(c2.as_str());
            },
        }
        s
    }
}

} // verus!
