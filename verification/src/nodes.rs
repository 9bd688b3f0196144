//! Syntax trees.
use vstd::prelude::*;

use crate::text::push_char;

verus! {

/// A node of a syntax tree. It owns its children.
#[derive(Debug, PartialEq, Eq)]
pub struct Node {
    pub kind: NodeType,
}

/// The two shapes of a node: an operator applied to its operands, in order,
/// and a leaf that carries the text of a literal or an identifier.
#[derive(Debug, PartialEq, Eq)]
pub enum NodeType {
    Operator(char, Vec<Node>),
    Literal(String, Vec<Node>),
}

/// A syntax tree as a mathematical value.
pub enum Tree {
    Operator(char, Seq<Tree>),
    Literal(Seq<char>, Seq<Tree>),
}

/// The trees that a sequence of nodes stands for, in the same order.
pub open spec fn forest(nodes: Seq<Node>) -> Seq<Tree>
    decreases nodes,
{
    Seq::new(
        nodes.len(),
        |i: int|
            if 0 <= i < nodes.len() {
                nodes[i].kind.view()
            } else {
                arbitrary()
            },
    )
}

impl View for NodeType {
    type V = Tree;

    open spec fn view(&self) -> Tree
        decreases self,
    {
        match self {
            NodeType::Operator(symbol, children) => Tree::Operator(*symbol, forest(children@)),
            NodeType::Literal(text, children) => Tree::Literal(text@, forest(children@)),
        }
    }
}

impl DeepView for NodeType {
    type V = Tree;

    open spec fn deep_view(&self) -> Tree {
        self@
    }
}

impl View for Node {
    type V = Tree;

    open spec fn view(&self) -> Tree {
        self.kind@
    }
}

impl DeepView for Node {
    type V = Tree;

    open spec fn deep_view(&self) -> Tree {
        self@
    }
}

/// `n` repetitions of the two-space indentation step.
pub open spec fn indentation(n: nat) -> Seq<char> {
    Seq::new(2 * n, |i: int| ' ')
}

impl Tree {
    /// The children, in order.
    pub open spec fn children(self) -> Seq<Tree> {
        match self {
            Tree::Operator(_, children) => children,
            Tree::Literal(_, children) => children,
        }
    }

    /// What the node shows of itself: the operator's symbol, or the leaf's text.
    pub open spec fn label(self) -> Seq<char> {
        match self {
            Tree::Operator(symbol, _) => seq![symbol],
            Tree::Literal(text, _) => text,
        }
    }

    /// A leaf has no children; an operator has one operand (prefix or postfix)
    /// or two (infix), each of them well formed.
    pub open spec fn well_formed(self) -> bool
        decreases self,
    {
        match self {
            Tree::Operator(_, children) => {
                &&& 1 <= children.len() <= 2
                &&& forall|i: int| 0 <= i < children.len() ==> (#[trigger] children[i]).well_formed()
            },
            Tree::Literal(_, children) => children.len() == 0,
        }
    }

    /// The tree as text, one node per line, parents before children, each
    /// line starting with `indent` and every level adding two spaces to it.
    pub open spec fn outline(self, indent: Seq<char>) -> Seq<char>
        decreases self, 0nat,
    {
        indent + self.label() + seq!['\n'] + Tree::outline_each(
            self.children(),
            indent + indentation(1),
        )
    }

    /// The outlines of `trees`, one after the other.
    pub open spec fn outline_each(trees: Seq<Tree>, indent: Seq<char>) -> Seq<char>
        decreases trees, 1nat,
    {
        if trees.len() == 0 {
            Seq::empty()
        } else {
            Tree::outline_each(trees.drop_last(), indent) + trees.last().outline(indent)
        }
    }
}

impl Node {
    /// The children of this node, in order.
    pub fn get_children(&self) -> (children: &Vec<Node>)
        ensures
            forest(children@) == self@.children(),
            *children == (match self.kind {
                NodeType::Operator(_, v) => v,
                NodeType::Literal(_, v) => v,
            }),
    {
        match &self.kind {
            NodeType::Operator(_, vec) => vec,
            NodeType::Literal(_, vec1) => vec1,
        }
    }

    /// The tree as indented text, one node per line: the node itself behind
    /// `tabs` indentation steps, then its children one step deeper.
    pub fn traverse(&self, tabs: usize) -> (text: String)
        ensures
            text@ == self@.outline(indentation(tabs as nat)),
    {
        let mut indent = String::new();
        let mut i: usize = 0;
        while i < tabs
            invariant
                i <= tabs,
                indent@ == indentation(i as nat),
            decreases tabs - i,
        {
            push_char(&mut indent, ' ');
            push_char(&mut indent, ' ');
            i += 1;
            assert(indent@ =~= indentation(i as nat));
        }
        let mut text = String::new();
        self.write_outline(indent.as_str(), &mut text);
        assert(Seq::<char>::empty() + self@.outline(indent@) =~= self@.outline(indent@));
        text
    }

    /// Appends the outline of this node, indented by `indent`, to `out`.
    fn write_outline(&self, indent: &str, out: &mut String)
        ensures
            final(out)@ == old(out)@ + self@.outline(indent@),
        decreases self,
    {
        out.append(indent);
        match &self.kind {
            NodeType::Operator(symbol, _) => {
                push_char(out, *symbol);
            },
            NodeType::Literal(text, _) => {
                out.append(text.as_str());
            },
        }
        push_char(out, '\n');
        let ghost head = old(out)@ + indent@ + self@.label() + seq!['\n'];
        assert(out@ =~= head);
        let mut deeper = indent.to_owned();
        push_char(&mut deeper, ' ');
        push_char(&mut deeper, ' ');
        assert(deeper@ =~= indent@ + indentation(1));
        let children = self.get_children();
        let mut i: usize = 0;
        while i < children.len()
            invariant
                i <= children.len(),
                *children == (match self.kind {
                    NodeType::Operator(_, v) => v,
                    NodeType::Literal(_, v) => v,
                }),
                forest(children@) == self@.children(),
                out@ == head + Tree::outline_each(forest(children@).take(i as int), deeper@),
            decreases children.len() - i,
        {
            let ghost done = forest(children@).take(i as int);
            let ghost more = forest(children@).take(i + 1);
            assert(more.drop_last() =~= done);
            assert(more.last() == children[i as int]@);
            children[i].write_outline(deeper.as_str(), out);
            i += 1;
            assert(out@ =~= head + Tree::outline_each(more, deeper@));
        }
        assert(forest(children@).take(children.len() as int) =~= forest(children@));
        assert(out@ =~= old(out)@ + self@.outline(indent@));
    }
}

} // verus!
