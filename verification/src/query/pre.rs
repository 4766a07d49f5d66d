//! The pre-normalization query tree: user-facing, bound to no concrete
//! sheet. Fields are addressed by name, optionally with a per-leaf
//! language override.

use vstd::prelude::*;

use crate::data::Language;
use crate::query::Occur;
use crate::query::Value;

verus! {

/// A field reference by name, with an optional language override for
/// localized columns.
#[derive(Clone, Debug)]
pub struct FieldSpecifier {
    pub name: String,
    pub language: Option<Language>,
}

/// One node of the pre-normalization tree.
#[derive(Debug)]
pub enum Node {
    Group(Group),
    Leaf(Leaf),
}

/// Boolean combinator over sub-queries. Clause order is irrelevant to the
/// semantics but is preserved for determinism.
#[derive(Debug)]
pub struct Group {
    pub clauses: Vec<(Occur, Node)>,
}

/// One predicate over one field.
#[derive(Debug)]
pub struct Leaf {
    pub field: FieldSpecifier,
    pub operation: Operation,
}

#[derive(Debug)]
pub enum Operation {
    Equal(Value),
    Relation(Relation),
}

/// The field's value must equal the row id of some row matching `query`
/// in the target sheet.
#[derive(Debug)]
pub struct Relation {
    pub target: RelationTarget,
}

#[derive(Debug)]
pub struct RelationTarget {
    pub sheet: String,
    pub query: Box<Node>,
    pub condition: Option<Box<Node>>,
}

/// Mathematical image of a pre-normalization node.
pub enum NodeView {
    Group(Seq<(Occur, NodeView)>),
    Leaf(LeafView),
}

/// Mathematical image of a leaf: the field name the user wrote, the
/// optional language override, and the operation.
pub struct LeafView {
    pub field_name: Seq<char>,
    pub language: Option<Language>,
    pub operation: OperationView,
}

pub enum OperationView {
    Equal(Value),
    Relation(RelationView),
}

pub struct RelationView {
    pub sheet: Seq<char>,
    pub query: Box<NodeView>,
    pub condition: Option<Box<NodeView>>,
}

pub open spec fn node_view(n: Node) -> NodeView
    decreases n,
{
    match n {
        Node::Group(g) => NodeView::Group(clauses_view(g.clauses@)),
        Node::Leaf(l) => NodeView::Leaf(leaf_view(l)),
    }
}

pub open spec fn leaf_view(l: Leaf) -> LeafView
    decreases l,
{
    LeafView {
        field_name: l.field.name@,
        language: l.field.language,
        operation: match l.operation {
            Operation::Equal(v) => OperationView::Equal(v),
            Operation::Relation(r) => OperationView::Relation(relation_view(r)),
        },
    }
}

pub open spec fn relation_view(r: Relation) -> RelationView
    decreases r,
{
    RelationView {
        sheet: r.target.sheet@,
        query: Box::new(node_view(*r.target.query)),
        condition: match r.target.condition {
            Some(c) => Some(Box::new(node_view(*c))),
            None => None,
        },
    }
}

pub open spec fn clauses_view(s: Seq<(Occur, Node)>) -> Seq<(Occur, NodeView)>
    decreases s,
{
    if s.len() == 0 {
        Seq::empty()
    } else {
        seq![(s[0].0, node_view(s[0].1))] + clauses_view(s.drop_first())
    }
}

impl View for Node {
    type V = NodeView;

    open spec fn view(&self) -> NodeView {
        node_view(*self)
    }
}

/// `clauses_view` is the element-wise image of its input.
pub proof fn lemma_clauses_view(s: Seq<(Occur, Node)>)
    ensures
        clauses_view(s).len() == s.len(),
        forall|i: int|
            0 <= i < s.len() ==> #[trigger] clauses_view(s)[i] == (s[i].0, node_view(s[i].1)),
    decreases s,
{
    if s.len() > 0 {
        lemma_clauses_view(s.drop_first());
        assert forall|i: int| 0 <= i < s.len() implies #[trigger] clauses_view(s)[i] == (
        s[i].0,
        node_view(s[i].1),
        ) by {
            if i > 0 {
                assert(clauses_view(s)[i] == clauses_view(s.drop_first())[i - 1]);
                assert(s.drop_first()[i - 1] == s[i]);
            }
        }
    }
}

/// Structural height of a node image, counting relation sub-queries and
/// conditions: the termination measure for normalization, which walks into
/// them.
pub open spec fn pnv_height(n: NodeView) -> nat
    decreases n, 3int,
{
    match n {
        NodeView::Group(clauses) => 1 + pnv_clauses_height(clauses),
        NodeView::Leaf(l) => 1 + pnv_op_height(l.operation),
    }
}

pub open spec fn pnv_op_height(op: OperationView) -> nat
    decreases op, 2int,
{
    match op {
        OperationView::Equal(_) => 0,
        OperationView::Relation(r) => 1 + pnv_height(*r.query) + (match r.condition {
            Some(c) => pnv_height(*c),
            None => 0,
        }),
    }
}

pub open spec fn pnv_clauses_height(s: Seq<(Occur, NodeView)>) -> nat
    decreases s, 0int,
{
    if s.len() == 0 {
        0
    } else {
        pnv_height(s[0].1) + pnv_clauses_height(s.drop_first())
    }
}

/// Each clause is bounded by the height of any clause list containing it.
pub proof fn lemma_pnv_clause_height(s: Seq<(Occur, NodeView)>, i: int)
    requires
        0 <= i < s.len(),
    ensures
        pnv_height(s[i].1) <= pnv_clauses_height(s),
    decreases s.len(),
{
    if i > 0 {
        lemma_pnv_clause_height(s.drop_first(), i - 1);
        assert(s.drop_first()[i - 1] == s[i]);
    }
}

} // verus!
