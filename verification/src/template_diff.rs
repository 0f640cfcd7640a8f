//! Template diffing engine: compares templates at the AST level to decide
//! whether a change can be hot-reloaded or needs a full rebuild, and which
//! incremental operations apply it.

use vstd::prelude::*;

use crate::protocol::{duplicate_parts, DynamicKind, DynamicPart, TemplateUpdate};
use crate::text::{decimal, path_debug, push_decimal, push_path_debug, push_quoted, push_str, quoted};

verus! {

/// Represents a node in the template AST
#[derive(Debug, PartialEq, Eq)]
pub enum TemplateNode {
    /// Static HTML element
    Element { tag: String, attributes: Vec<Attribute>, children: Vec<TemplateNode> },
    /// Text content
    Text(String),
    /// Dynamic expression
    Expression {
        /// The expression content
        content: String,
        /// Position in the template
        index: usize,
    },
    /// Conditional block
    Conditional {
        condition: String,
        then_branch: Vec<TemplateNode>,
        else_branch: Option<Vec<TemplateNode>>,
        index: usize,
    },
    /// Loop block
    Loop { iterator: String, iterable: String, body: Vec<TemplateNode>, index: usize },
    /// Component reference
    Component { name: String, props: Vec<Attribute>, children: Vec<TemplateNode> },
}

/// Attribute in a template
#[derive(Debug, Clone, PartialEq, Eq)]
pub struct Attribute {
    pub name: String,
    pub value: AttributeValue,
}

/// Attribute value types
#[derive(Debug, Clone, PartialEq, Eq)]
pub enum AttributeValue {
    /// Static string value
    Static(String),
    /// Dynamic expression
    Dynamic(String),
    /// Event handler
    EventHandler(String),
}

/// The value of an attribute value.
pub enum ValueModel {
    Static(Seq<char>),
    Dynamic(Seq<char>),
    EventHandler(Seq<char>),
}

/// The value of an attribute.
pub struct AttrModel {
    pub name: Seq<char>,
    pub value: ValueModel,
}

/// The value of a template node, its lists as sequences.
pub enum NodeModel {
    Element { tag: Seq<char>, attributes: Seq<AttrModel>, children: Seq<NodeModel> },
    Text(Seq<char>),
    Expression { content: Seq<char>, index: usize },
    Conditional {
        condition: Seq<char>,
        then_branch: Seq<NodeModel>,
        else_branch: Option<Seq<NodeModel>>,
        index: usize,
    },
    Loop { iterator: Seq<char>, iterable: Seq<char>, body: Seq<NodeModel>, index: usize },
    Component { name: Seq<char>, props: Seq<AttrModel>, children: Seq<NodeModel> },
}

impl View for AttributeValue {
    type V = ValueModel;

    open spec fn view(&self) -> ValueModel {
        match *self {
            AttributeValue::Static(s) => ValueModel::Static(s@),
            AttributeValue::Dynamic(s) => ValueModel::Dynamic(s@),
            AttributeValue::EventHandler(s) => ValueModel::EventHandler(s@),
        }
    }
}

impl View for Attribute {
    type V = AttrModel;

    open spec fn view(&self) -> AttrModel {
        AttrModel { name: self.name@, value: self.value@ }
    }
}

/// The values of a list of attributes.
pub open spec fn attrs_view(attrs: Vec<Attribute>) -> Seq<AttrModel> {
    attrs@.map_values(|a: Attribute| a@)
}

/// The value of a node.
pub open spec fn node_view(n: TemplateNode) -> NodeModel
    decreases n,
{
    proof {
        broadcast use vstd::std_specs::vec::axiom_vec_index_decreases;
    }
    match n {
        TemplateNode::Element { tag, attributes, children } => NodeModel::Element {
            tag: tag@,
            attributes: attrs_view(attributes),
            children: Seq::new(
                children.len() as nat,
                |i: int|
                    if 0 <= i < children.len() {
                        node_view(children[i])
                    } else {
                        NodeModel::Text(Seq::empty())
                    },
            ),
        },
        TemplateNode::Text(t) => NodeModel::Text(t@),
        TemplateNode::Expression { content, index } => NodeModel::Expression {
            content: content@,
            index,
        },
        TemplateNode::Conditional { condition, then_branch, else_branch, index } => {
            NodeModel::Conditional {
                condition: condition@,
                then_branch: Seq::new(
                    then_branch.len() as nat,
                    |i: int|
                        if 0 <= i < then_branch.len() {
                            node_view(then_branch[i])
                        } else {
                            NodeModel::Text(Seq::empty())
                        },
                ),
                else_branch: match else_branch {
                    Some(e) => Some(
                        Seq::new(
                            e.len() as nat,
                            |i: int|
                                if 0 <= i < e.len() {
                                    node_view(e[i])
                                } else {
                                    NodeModel::Text(Seq::empty())
                                },
                        ),
                    ),
                    None => None,
                },
                index,
            }
        },
        TemplateNode::Loop { iterator, iterable, body, index } => NodeModel::Loop {
            iterator: iterator@,
            iterable: iterable@,
            body: Seq::new(
                body.len() as nat,
                |i: int|
                    if 0 <= i < body.len() {
                        node_view(body[i])
                    } else {
                        NodeModel::Text(Seq::empty())
                    },
            ),
            index,
        },
        TemplateNode::Component { name, props, children } => NodeModel::Component {
            name: name@,
            props: attrs_view(props),
            children: Seq::new(
                children.len() as nat,
                |i: int|
                    if 0 <= i < children.len() {
                        node_view(children[i])
                    } else {
                        NodeModel::Text(Seq::empty())
                    },
            ),
        },
    }
}

impl View for TemplateNode {
    type V = NodeModel;

    open spec fn view(&self) -> NodeModel {
        node_view(*self)
    }
}

/// The values of a list of nodes.
pub open spec fn nodes_view(nodes: Seq<TemplateNode>) -> Seq<NodeModel> {
    nodes.map_values(|n: TemplateNode| n@)
}

impl AttributeValue {
    /// A copy of this value.
    pub fn duplicate(&self) -> (r: Self)
        ensures
            r@ == self@,
    {
        match self {
            AttributeValue::Static(s) => AttributeValue::Static(s.clone()),
            AttributeValue::Dynamic(s) => AttributeValue::Dynamic(s.clone()),
            AttributeValue::EventHandler(s) => AttributeValue::EventHandler(s.clone()),
        }
    }

    /// Whether two values are the same kind of value with the same text.
    pub fn same_value(&self, other: &Self) -> (r: bool)
        ensures
            r == (self@ == other@),
    {
        match (self, other) {
            (AttributeValue::Static(a), AttributeValue::Static(b)) => {
                let r = *a == *b;
                proof {
                    if !r {
                        assert(self@->Static_0 != other@->Static_0);
                    }
                }
                r
            },
            (AttributeValue::Dynamic(a), AttributeValue::Dynamic(b)) => {
                let r = *a == *b;
                proof {
                    if !r {
                        assert(self@->Dynamic_0 != other@->Dynamic_0);
                    }
                }
                r
            },
            (AttributeValue::EventHandler(a), AttributeValue::EventHandler(b)) => {
                let r = *a == *b;
                proof {
                    if !r {
                        assert(self@->EventHandler_0 != other@->EventHandler_0);
                    }
                }
                r
            },
            _ => false,
        }
    }
}

impl Attribute {
    /// A copy of this attribute.
    pub fn duplicate(&self) -> (r: Self)
        ensures
            r@ == self@,
    {
        Attribute { name: self.name.clone(), value: self.value.duplicate() }
    }
}

/// Copies of a list of attributes.
pub fn duplicate_attrs(attrs: &Vec<Attribute>) -> (r: Vec<Attribute>)
    ensures
        attrs_view(r) == attrs_view(*attrs),
{
    let mut r: Vec<Attribute> = Vec::new();
    let mut i: usize = 0;
    while i < attrs.len()
        invariant
            i <= attrs.len(),
            r.len() == i,
            forall|j: int| 0 <= j < i ==> #[trigger] r@[j]@ == attrs@[j]@,
        decreases attrs.len() - i,
    {
        r.push(attrs[i].duplicate());
        i = i + 1;
    }
    assert(attrs_view(r) =~= attrs_view(*attrs));
    r
}

/// Copies of a list of nodes.
pub fn duplicate_nodes(nodes: &Vec<TemplateNode>) -> (r: Vec<TemplateNode>)
    ensures
        r.len() == nodes.len(),
        forall|i: int| 0 <= i < r.len() ==> node_view(#[trigger] r@[i]) == node_view(nodes@[i]),
    decreases nodes, 0nat,
{
    let mut r: Vec<TemplateNode> = Vec::new();
    let mut i: usize = 0;
    while i < nodes.len()
        invariant
            i <= nodes.len(),
            r.len() == i,
            forall|j: int| 0 <= j < i ==> node_view(#[trigger] r@[j]) == node_view(nodes@[j]),
        decreases nodes.len() - i,
    {
        proof {
            vstd::std_specs::vec::axiom_vec_index_decreases(*nodes, i as int);
        }
        let c = nodes[i].duplicate();
        r.push(c);
        i = i + 1;
    }
    r
}

impl TemplateNode {
    /// A copy of this node.
    pub fn duplicate(&self) -> (r: Self)
        ensures
            r@ == self@,
        decreases *self, 1nat,
    {
        match self {
            TemplateNode::Text(t) => TemplateNode::Text(t.clone()),
            TemplateNode::Expression { content, index } => TemplateNode::Expression {
                content: content.clone(),
                index: *index,
            },
            TemplateNode::Element { tag, attributes, children } => {
                let cs = duplicate_nodes(children);
                let r = TemplateNode::Element {
                    tag: tag.clone(),
                    attributes: duplicate_attrs(attributes),
                    children: cs,
                };
                assert(r@->Element_children =~= self@->Element_children);
                r
            },
            TemplateNode::Component { name, props, children } => {
                let cs = duplicate_nodes(children);
                let r = TemplateNode::Component {
                    name: name.clone(),
                    props: duplicate_attrs(props),
                    children: cs,
                };
                assert(r@->Component_children =~= self@->Component_children);
                r
            },
            TemplateNode::Loop { iterator, iterable, body, index } => {
                let b = duplicate_nodes(body);
                let r = TemplateNode::Loop {
                    iterator: iterator.clone(),
                    iterable: iterable.clone(),
                    body: b,
                    index: *index,
                };
                assert(r@->Loop_body =~= self@->Loop_body);
                r
            },
            TemplateNode::Conditional { condition, then_branch, else_branch, index } => {
                let t = duplicate_nodes(then_branch);
                let e = match else_branch {
                    Some(e) => Some(duplicate_nodes(e)),
                    None => None,
                };
                let r = TemplateNode::Conditional {
                    condition: condition.clone(),
                    then_branch: t,
                    else_branch: e,
                    index: *index,
                };
                assert(r@->Conditional_then_branch =~= self@->Conditional_then_branch);
                proof {
                    if else_branch.is_some() {
                        assert(r@->Conditional_else_branch->0 =~= self@->Conditional_else_branch->0);
                    }
                }
                r
            },
        }
    }
}


/// Types of template changes
#[derive(Debug, PartialEq)]
pub enum TemplateChange {
    /// Text content changed
    TextChanged { path: Vec<usize>, old: String, new: String },
    /// Attribute value changed
    AttributeChanged {
        path: Vec<usize>,
        attr_name: String,
        old: AttributeValue,
        new: AttributeValue,
    },
    /// Element added
    ElementAdded { path: Vec<usize>, node: TemplateNode },
    /// Element removed
    ElementRemoved { path: Vec<usize>, node: TemplateNode },
    /// Element replaced
    ElementReplaced { path: Vec<usize>, old: TemplateNode, new: TemplateNode },
    /// Dynamic part changed
    DynamicPartChanged { index: usize, old: DynamicKind, new: DynamicKind },
}

/// Issues that prevent hot reload compatibility
#[derive(Debug, Clone, PartialEq)]
pub enum CompatibilityIssue {
    /// Root element type changed
    RootElementChanged { old: String, new: String },
    /// Dynamic part count mismatch
    DynamicPartCountMismatch { old: usize, new: usize },
    /// Dynamic part type changed at index
    DynamicPartTypeMismatch { index: usize, old: DynamicKind, new: DynamicKind },
    /// Component structure fundamentally changed
    StructuralChange { description: String },
    /// State preservation not possible
    StatePreservationIssue { description: String },
}

/// Delta operations for incremental updates
#[derive(Debug)]
pub enum DeltaOperation {
    /// Update text content
    UpdateText { path: Vec<usize>, content: String },
    /// Update attribute
    UpdateAttribute { path: Vec<usize>, name: String, value: String },
    /// Insert node
    InsertNode { parent_path: Vec<usize>, index: usize, html: String },
    /// Remove node
    RemoveNode { path: Vec<usize> },
    /// Replace node
    ReplaceNode { path: Vec<usize>, html: String },
}

/// The value of a template change.
pub enum ChangeModel {
    TextChanged { path: Seq<usize>, old: Seq<char>, new: Seq<char> },
    AttributeChanged { path: Seq<usize>, attr_name: Seq<char>, old: ValueModel, new: ValueModel },
    ElementAdded { path: Seq<usize>, node: NodeModel },
    ElementRemoved { path: Seq<usize>, node: NodeModel },
    ElementReplaced { path: Seq<usize>, old: NodeModel, new: NodeModel },
    DynamicPartChanged { index: usize, old: DynamicKind, new: DynamicKind },
}

/// The value of a compatibility issue.
pub enum IssueModel {
    RootElementChanged { old: Seq<char>, new: Seq<char> },
    DynamicPartCountMismatch { old: usize, new: usize },
    DynamicPartTypeMismatch { index: usize, old: DynamicKind, new: DynamicKind },
    StructuralChange { description: Seq<char> },
    StatePreservationIssue { description: Seq<char> },
}

/// The value of a delta operation.
pub enum OpModel {
    UpdateText { path: Seq<usize>, content: Seq<char> },
    UpdateAttribute { path: Seq<usize>, name: Seq<char>, value: Seq<char> },
    InsertNode { parent_path: Seq<usize>, index: usize, html: Seq<char> },
    RemoveNode { path: Seq<usize> },
    ReplaceNode { path: Seq<usize>, html: Seq<char> },
}

impl View for TemplateChange {
    type V = ChangeModel;

    open spec fn view(&self) -> ChangeModel {
        match *self {
            TemplateChange::TextChanged { path, old, new } => ChangeModel::TextChanged {
                path: path@,
                old: old@,
                new: new@,
            },
            TemplateChange::AttributeChanged { path, attr_name, old, new } => {
                ChangeModel::AttributeChanged {
                    path: path@,
                    attr_name: attr_name@,
                    old: old@,
                    new: new@,
                }
            },
            TemplateChange::ElementAdded { path, node } => ChangeModel::ElementAdded {
                path: path@,
                node: node@,
            },
            TemplateChange::ElementRemoved { path, node } => ChangeModel::ElementRemoved {
                path: path@,
                node: node@,
            },
            TemplateChange::ElementReplaced { path, old, new } => ChangeModel::ElementReplaced {
                path: path@,
                old: old@,
                new: new@,
            },
            TemplateChange::DynamicPartChanged { index, old, new } => {
                ChangeModel::DynamicPartChanged { index, old, new }
            },
        }
    }
}

impl View for CompatibilityIssue {
    type V = IssueModel;

    open spec fn view(&self) -> IssueModel {
        match *self {
            CompatibilityIssue::RootElementChanged { old, new } => IssueModel::RootElementChanged {
                old: old@,
                new: new@,
            },
            CompatibilityIssue::DynamicPartCountMismatch { old, new } => {
                IssueModel::DynamicPartCountMismatch { old, new }
            },
            CompatibilityIssue::DynamicPartTypeMismatch { index, old, new } => {
                IssueModel::DynamicPartTypeMismatch { index, old, new }
            },
            CompatibilityIssue::StructuralChange { description } => {
                IssueModel::StructuralChange { description: description@ }
            },
            CompatibilityIssue::StatePreservationIssue { description } => {
                IssueModel::StatePreservationIssue { description: description@ }
            },
        }
    }
}

impl View for DeltaOperation {
    type V = OpModel;

    open spec fn view(&self) -> OpModel {
        match *self {
            DeltaOperation::UpdateText { path, content } => OpModel::UpdateText {
                path: path@,
                content: content@,
            },
            DeltaOperation::UpdateAttribute { path, name, value } => OpModel::UpdateAttribute {
                path: path@,
                name: name@,
                value: value@,
            },
            DeltaOperation::InsertNode { parent_path, index, html } => OpModel::InsertNode {
                parent_path: parent_path@,
                index,
                html: html@,
            },
            DeltaOperation::RemoveNode { path } => OpModel::RemoveNode { path: path@ },
            DeltaOperation::ReplaceNode { path, html } => OpModel::ReplaceNode {
                path: path@,
                html: html@,
            },
        }
    }
}

/// The values of a list of changes.
pub open spec fn changes_view(s: Seq<TemplateChange>) -> Seq<ChangeModel> {
    s.map_values(|c: TemplateChange| c@)
}

/// The values of a list of issues.
pub open spec fn issues_view(s: Seq<CompatibilityIssue>) -> Seq<IssueModel> {
    s.map_values(|c: CompatibilityIssue| c@)
}

/// The values of a list of operations.
pub open spec fn ops_view(s: Seq<DeltaOperation>) -> Seq<OpModel> {
    s.map_values(|c: DeltaOperation| c@)
}

/// What a diff produces: changes, compatibility issues and delta operations.
#[verifier::ext_equal]
pub struct DiffOut {
    pub changes: Seq<ChangeModel>,
    pub issues: Seq<IssueModel>,
    pub ops: Seq<OpModel>,
}

impl DiffOut {
    /// Nothing found.
    pub open spec fn empty() -> DiffOut {
        DiffOut { changes: Seq::empty(), issues: Seq::empty(), ops: Seq::empty() }
    }

    /// These findings followed by `o`.
    pub open spec fn followed_by(self, o: DiffOut) -> DiffOut {
        DiffOut { changes: self.changes + o.changes, issues: self.issues + o.issues, ops: self.ops + o.ops }
    }

    /// Nothing was found.
    pub open spec fn is_empty(self) -> bool {
        self.changes.len() == 0 && self.issues.len() == 0 && self.ops.len() == 0
    }
}

/// The HTML inserted for an added node.
pub open spec fn new_node_html() -> Seq<char> {
    "<!-- new node -->"@
}

/// The description of a change of node kind at `path`.
pub open spec fn node_type_changed(path: Seq<usize>) -> Seq<char> {
    "Node type changed at path "@ + path_debug(path)
}

/// The value of the last attribute named `name`, if any.
pub open spec fn last_value(attrs: Seq<AttrModel>, name: Seq<char>) -> Option<ValueModel>
    decreases attrs.len(),
{
    if attrs.len() == 0 {
        None
    } else if attrs.last().name == name {
        Some(attrs.last().value)
    } else {
        last_value(attrs.drop_last(), name)
    }
}

/// No later attribute has the name of the attribute at `i`.
pub open spec fn is_last_name(attrs: Seq<AttrModel>, i: int) -> bool {
    forall|j: int| i < j < attrs.len() ==> #[trigger] attrs[j].name != attrs[i].name
}

/// Attribute differences found among the first `n` old attributes: each
/// name is compared once, by its last old value against its last new value,
/// and a removed attribute is not reported.
pub open spec fn attrs_diff_upto(
    olds: Seq<AttrModel>,
    news: Seq<AttrModel>,
    path: Seq<usize>,
    n: nat,
) -> DiffOut
    decreases n,
{
    if n == 0 {
        DiffOut::empty()
    } else {
        let i = n - 1;
        let prev = attrs_diff_upto(olds, news, path, (n - 1) as nat);
        let a = olds[i];
        let step = match last_value(news, a.name) {
            Some(v) => if is_last_name(olds, i) && v != a.value {
                DiffOut {
                    changes: seq![
                        ChangeModel::AttributeChanged {
                            path,
                            attr_name: a.name,
                            old: a.value,
                            new: v,
                        },
                    ],
                    issues: Seq::empty(),
                    ops: match v {
                        ValueModel::Static(t) => seq![
                            OpModel::UpdateAttribute { path, name: a.name, value: t },
                        ],
                        _ => Seq::empty(),
                    },
                }
            } else {
                DiffOut::empty()
            },
            None => DiffOut::empty(),
        };
        prev.followed_by(step)
    }
}

/// Differences between two nodes at `path`.
pub open spec fn diff_node_models(old: NodeModel, new: NodeModel, path: Seq<usize>) -> DiffOut
    decreases old, 0nat,
{
    match (old, new) {
        (NodeModel::Text(a), NodeModel::Text(b)) => if a != b {
            DiffOut {
                changes: seq![ChangeModel::TextChanged { path, old: a, new: b }],
                issues: Seq::empty(),
                ops: seq![OpModel::UpdateText { path, content: b }],
            }
        } else {
            DiffOut::empty()
        },
        (
            NodeModel::Element { tag: t1, attributes: a1, children: c1 },
            NodeModel::Element { tag: t2, attributes: a2, children: c2 },
        ) => if t1 != t2 {
            DiffOut {
                changes: seq![ChangeModel::ElementReplaced { path, old, new }],
                issues: if path.len() == 1 {
                    seq![IssueModel::RootElementChanged { old: t1, new: t2 }]
                } else {
                    Seq::empty()
                },
                ops: Seq::empty(),
            }
        } else {
            let m = if c1.len() >= c2.len() { c1.len() } else { c2.len() };
            attrs_diff_upto(a1, a2, path, a1.len()).followed_by(children_diff(c1, c2, path, m))
        },
        _ => DiffOut {
            changes: seq![ChangeModel::ElementReplaced { path, old, new }],
            issues: seq![IssueModel::StructuralChange { description: node_type_changed(path) }],
            ops: Seq::empty(),
        },
    }
}

/// Differences between the first `n` children of two nodes under `parent`.
pub open spec fn children_diff(
    olds: Seq<NodeModel>,
    news: Seq<NodeModel>,
    parent: Seq<usize>,
    n: nat,
) -> DiffOut
    decreases olds, n,
{
    if n == 0 {
        DiffOut::empty()
    } else {
        let i = n - 1;
        let cp = parent.push(i as usize);
        let step = if i < olds.len() && i < news.len() {
            diff_node_models(olds[i], news[i], cp)
        } else if i < olds.len() {
            DiffOut {
                changes: seq![ChangeModel::ElementRemoved { path: cp, node: olds[i] }],
                issues: Seq::empty(),
                ops: seq![OpModel::RemoveNode { path: cp }],
            }
        } else if i < news.len() {
            DiffOut {
                changes: seq![ChangeModel::ElementAdded { path: cp, node: news[i] }],
                issues: Seq::empty(),
                ops: seq![
                    OpModel::InsertNode {
                        parent_path: parent,
                        index: i as usize,
                        html: new_node_html(),
                    },
                ],
            }
        } else {
            DiffOut::empty()
        };
        children_diff(olds, news, parent, (n - 1) as nat).followed_by(step)
    }
}

/// Findings gathered so far by a diff.
pub struct DiffAccumulator {
    pub changes: Vec<TemplateChange>,
    pub issues: Vec<CompatibilityIssue>,
    pub ops: Vec<DeltaOperation>,
}

impl View for DiffAccumulator {
    type V = DiffOut;

    open spec fn view(&self) -> DiffOut {
        DiffOut {
            changes: changes_view(self.changes@),
            issues: issues_view(self.issues@),
            ops: ops_view(self.ops@),
        }
    }
}

impl DiffAccumulator {
    pub fn new() -> (r: Self)
        ensures
            r@ == DiffOut::empty(),
    {
        let r = DiffAccumulator { changes: Vec::new(), issues: Vec::new(), ops: Vec::new() };
        assert(r@ =~= DiffOut::empty());
        r
    }

    pub fn push_change(&mut self, c: TemplateChange)
        ensures
            final(self)@ == old(self)@.followed_by(
                DiffOut { changes: seq![c@], issues: Seq::empty(), ops: Seq::empty() },
            ),
    {
        self.changes.push(c);
        assert(changes_view(self.changes@) =~= changes_view(old(self).changes@) + seq![c@]);
        assert(issues_view(self.issues@) =~= issues_view(self.issues@) + Seq::empty());
        assert(ops_view(self.ops@) =~= ops_view(self.ops@) + Seq::empty());
    }

    pub fn push_issue(&mut self, c: CompatibilityIssue)
        ensures
            final(self)@ == old(self)@.followed_by(
                DiffOut { changes: Seq::empty(), issues: seq![c@], ops: Seq::empty() },
            ),
    {
        self.issues.push(c);
        assert(issues_view(self.issues@) =~= issues_view(old(self).issues@) + seq![c@]);
        assert(changes_view(self.changes@) =~= changes_view(self.changes@) + Seq::empty());
        assert(ops_view(self.ops@) =~= ops_view(self.ops@) + Seq::empty());
    }

    pub fn push_op(&mut self, c: DeltaOperation)
        ensures
            final(self)@ == old(self)@.followed_by(
                DiffOut { changes: Seq::empty(), issues: Seq::empty(), ops: seq![c@] },
            ),
    {
        self.ops.push(c);
        assert(ops_view(self.ops@) =~= ops_view(old(self).ops@) + seq![c@]);
        assert(changes_view(self.changes@) =~= changes_view(self.changes@) + Seq::empty());
        assert(issues_view(self.issues@) =~= issues_view(self.issues@) + Seq::empty());
    }
}

/// A copy of a path.
pub fn copy_path(p: &[usize]) -> (r: Vec<usize>)
    ensures
        r@ == p@,
{
    let mut r: Vec<usize> = Vec::new();
    let mut i: usize = 0;
    while i < p.len()
        invariant
            i <= p.len(),
            r@ == p@.subrange(0, i as int),
        decreases p.len() - i,
    {
        r.push(p[i]);
        i = i + 1;
    }
    r
}


/// Appending findings is associative.
pub proof fn lemma_followed_by_assoc(a: DiffOut, b: DiffOut, c: DiffOut)
    ensures
        a.followed_by(b).followed_by(c) == a.followed_by(b.followed_by(c)),
{
    assert(a.followed_by(b).followed_by(c) =~= a.followed_by(b.followed_by(c)));
}

/// Appending nothing changes nothing.
pub proof fn lemma_followed_by_empty(a: DiffOut)
    ensures
        a.followed_by(DiffOut::empty()) == a,
        DiffOut::empty().followed_by(a) == a,
{
    assert(a.followed_by(DiffOut::empty()) =~= a);
    assert(DiffOut::empty().followed_by(a) =~= a);
}

/// The position of the last attribute named `name`.
fn find_last_named(attrs: &Vec<Attribute>, name: &String) -> (r: Option<usize>)
    ensures
        match r {
            Some(k) => k < attrs.len() && last_value(attrs_view(*attrs), name@) == Some(attrs@[k as int].value@),
            None => last_value(attrs_view(*attrs), name@) is None,
        },
{
    let ghost av = attrs_view(*attrs);
    let mut k: usize = attrs.len();
    assert(av.subrange(0, k as int) =~= av);
    while k > 0
        invariant
            k <= attrs.len(),
            av == attrs_view(*attrs),
            last_value(av, name@) == last_value(av.subrange(0, k as int), name@),
        decreases k,
    {
        let ghost pre = av.subrange(0, k as int);
        assert(pre.drop_last() =~= av.subrange(0, k - 1));
        if attrs[k - 1].name == *name {
            return Some(k - 1);
        }
        k = k - 1;
    }
    None
}

/// Whether no later attribute has the name of the attribute at `i`.
fn is_last_named(attrs: &Vec<Attribute>, i: usize) -> (r: bool)
    requires
        i < attrs.len(),
    ensures
        r == is_last_name(attrs_view(*attrs), i as int),
{
    let ghost av = attrs_view(*attrs);
    let mut j: usize = i + 1;
    while j < attrs.len()
        invariant
            i < j <= attrs.len(),
            av == attrs_view(*attrs),
            forall|k: int| i < k < j ==> #[trigger] av[k].name != av[i as int].name,
        decreases attrs.len() - j,
    {
        if attrs[j].name == attrs[i].name {
            assert(av[j as int].name == av[i as int].name);
            return false;
        }
        j = j + 1;
    }
    true
}

/// Records the attribute differences between two elements at `path`.
fn diff_attributes(
    old_attrs: &Vec<Attribute>,
    new_attrs: &Vec<Attribute>,
    path: &Vec<usize>,
    acc: &mut DiffAccumulator,
)
    ensures
        final(acc)@ == old(acc)@.followed_by(
            attrs_diff_upto(attrs_view(*old_attrs), attrs_view(*new_attrs), path@, old_attrs.len() as nat),
        ),
{
    let ghost start = acc@;
    let ghost ov = attrs_view(*old_attrs);
    let ghost nv = attrs_view(*new_attrs);
    proof {
        lemma_followed_by_empty(start);
    }
    let mut i: usize = 0;
    while i < old_attrs.len()
        invariant
            i <= old_attrs.len(),
            ov == attrs_view(*old_attrs),
            nv == attrs_view(*new_attrs),
            acc@ == start.followed_by(attrs_diff_upto(ov, nv, path@, i as nat)),
        decreases old_attrs.len() - i,
    {
        let ghost before = acc@;
        let a = &old_attrs[i];
        let ghost step = attrs_diff_upto(ov, nv, path@, (i + 1) as nat);
        if is_last_named(old_attrs, i) {
            match find_last_named(new_attrs, &a.name) {
                Some(k) => {
                    let nvalue = &new_attrs[k].value;
                    if !a.value.same_value(nvalue) {
                        acc.push_change(
                            TemplateChange::AttributeChanged {
                                path: copy_path(path.as_slice()),
                                attr_name: a.name.clone(),
                                old: a.value.duplicate(),
                                new: nvalue.duplicate(),
                            },
                        );
                        match nvalue {
                            AttributeValue::Static(v) => {
                                acc.push_op(
                                    DeltaOperation::UpdateAttribute {
                                        path: copy_path(path.as_slice()),
                                        name: a.name.clone(),
                                        value: v.clone(),
                                    },
                                );
                            },
                            _ => {},
                        }
                    }
                },
                None => {},
            }
        }
        proof {
            let prev = attrs_diff_upto(ov, nv, path@, i as nat);
            let st = attrs_diff_upto(ov, nv, path@, (i + 1) as nat);
            lemma_followed_by_empty(before);
            assert(acc@ =~= start.followed_by(st));
        }
        i = i + 1;
    }
}

/// Records the differences between two nodes at `path`.
#[verifier::loop_isolation(false)]
fn diff_nodes(
    old_node: &TemplateNode,
    new_node: &TemplateNode,
    path: &Vec<usize>,
    acc: &mut DiffAccumulator,
)
    ensures
        final(acc)@ == old(acc)@.followed_by(diff_node_models(old_node@, new_node@, path@)),
    decreases *old_node,
{
    let ghost start = acc@;
    match (old_node, new_node) {
        (TemplateNode::Text(a), TemplateNode::Text(b)) => {
            if !(*a == *b) {
                acc.push_change(
                    TemplateChange::TextChanged {
                        path: copy_path(path.as_slice()),
                        old: a.clone(),
                        new: b.clone(),
                    },
                );
                acc.push_op(
                    DeltaOperation::UpdateText { path: copy_path(path.as_slice()), content: b.clone() },
                );
                assert(acc@ =~= start.followed_by(diff_node_models(old_node@, new_node@, path@)));
            } else {
                proof {
                    lemma_followed_by_empty(start);
                }
            }
        },
        (
            TemplateNode::Element { tag: t1, attributes: a1, children: c1 },
            TemplateNode::Element { tag: t2, attributes: a2, children: c2 },
        ) => {
            if !(*t1 == *t2) {
                if path.len() == 1 {
                    acc.push_issue(
                        CompatibilityIssue::RootElementChanged { old: t1.clone(), new: t2.clone() },
                    );
                }
                acc.push_change(
                    TemplateChange::ElementReplaced {
                        path: copy_path(path.as_slice()),
                        old: old_node.duplicate(),
                        new: new_node.duplicate(),
                    },
                );
                assert(acc@ =~= start.followed_by(diff_node_models(old_node@, new_node@, path@)));
                return;
            }
            diff_attributes(a1, a2, path, acc);
            let ghost mid = acc@;
            let ghost c1v = old_node@->Element_children;
            let ghost c2v = new_node@->Element_children;
            let max: usize = if c1.len() >= c2.len() { c1.len() } else { c2.len() };
            proof {
                lemma_followed_by_empty(mid);
            }
            let mut i: usize = 0;
            while i < max
                invariant
                    i <= max,
                    acc@ == mid.followed_by(children_diff(c1v, c2v, path@, i as nat)),
                decreases max - i,
            {
                let ghost before = acc@;
                let mut cp = copy_path(path.as_slice());
                cp.push(i);
                if i < c1.len() && i < c2.len() {
                    proof {
                        vstd::std_specs::vec::axiom_vec_index_decreases(*c1, i as int);
                    }
                    diff_nodes(&c1[i], &c2[i], &cp, acc);
                } else if i < c1.len() {
                    acc.push_change(
                        TemplateChange::ElementRemoved { path: cp, node: c1[i].duplicate() },
                    );
                    let mut rp = copy_path(path.as_slice());
                    rp.push(i);
                    acc.push_op(DeltaOperation::RemoveNode { path: rp });
                } else {
                    acc.push_change(
                        TemplateChange::ElementAdded { path: cp, node: c2[i].duplicate() },
                    );
                    acc.push_op(
                        DeltaOperation::InsertNode {
                            parent_path: copy_path(path.as_slice()),
                            index: i,
                            html: String::from_str("<!-- new node -->"),
                        },
                    );
                }
                proof {
                    let prev = children_diff(c1v, c2v, path@, i as nat);
                    let step = acc@;
                    assert(acc@ =~= mid.followed_by(children_diff(c1v, c2v, path@, (i + 1) as nat)));
                }
                i = i + 1;
            }
            proof {
                let ad = attrs_diff_upto(attrs_view(*a1), attrs_view(*a2), path@, a1.len() as nat);
                lemma_followed_by_assoc(start, ad, children_diff(c1v, c2v, path@, max as nat));
            }
        },
        _ => {
            acc.push_change(
                TemplateChange::ElementReplaced {
                    path: copy_path(path.as_slice()),
                    old: old_node.duplicate(),
                    new: new_node.duplicate(),
                },
            );
            let mut d = String::from_str("Node type changed at path ");
            push_path_debug(&mut d, path.as_slice());
            acc.push_issue(CompatibilityIssue::StructuralChange { description: d });
            assert(acc@ =~= start.followed_by(diff_node_models(old_node@, new_node@, path@)));
        },
    }
}


/// Parsed template AST with metadata
#[derive(Debug)]
pub struct TemplateAst {
    /// Root nodes of the template
    pub roots: Vec<TemplateNode>,
    /// Dynamic parts in the template
    pub dynamic_parts: Vec<DynamicPart>,
    /// Original HTML for reference
    pub original_html: String,
}

/// The value of a parsed template.
pub struct AstModel {
    pub roots: Seq<NodeModel>,
    pub dynamic_parts: Seq<DynamicPart>,
    pub original_html: Seq<char>,
}

impl View for TemplateAst {
    type V = AstModel;

    open spec fn view(&self) -> AstModel {
        AstModel {
            roots: nodes_view(self.roots@),
            dynamic_parts: self.dynamic_parts@,
            original_html: self.original_html@,
        }
    }
}

/// The AST a template parses to: its whole HTML as one text node.
pub open spec fn parsed_ast(html: Seq<char>, parts: Seq<DynamicPart>) -> AstModel {
    AstModel { roots: seq![NodeModel::Text(html)], dynamic_parts: parts, original_html: html }
}

/// Result of diffing two templates
#[derive(Debug)]
pub struct DiffResult {
    /// Whether the templates are compatible for hot reload
    pub compatible: bool,
    /// Specific changes found
    pub changes: Vec<TemplateChange>,
    /// Compatibility issues preventing hot reload
    pub compatibility_issues: Vec<CompatibilityIssue>,
    /// Delta operations for applying the changes
    pub delta_ops: Vec<DeltaOperation>,
}

impl DiffResult {
    /// The findings of this result.
    pub open spec fn findings(&self) -> DiffOut {
        DiffOut {
            changes: changes_view(self.changes@),
            issues: issues_view(self.compatibility_issues@),
            ops: ops_view(self.delta_ops@),
        }
    }

    /// This result reports exactly `out`, and is compatible when no issue was found.
    pub open spec fn reports(&self, out: DiffOut) -> bool {
        &&& self.findings() == out
        &&& self.compatible == (out.issues.len() == 0)
    }
}

/// Why two templates cannot be diffed. Diffing never fails; the type is
/// kept so that callers can handle a future failure.
#[derive(Debug, Clone, Copy, PartialEq, Eq)]
pub enum DiffError {
    /// The template could not be parsed
    ParseFailed,
}

/// Dynamic-part differences among the first `n` parts of equal-length lists.
pub open spec fn parts_diff_upto(olds: Seq<DynamicPart>, news: Seq<DynamicPart>, n: nat) -> DiffOut
    decreases n,
{
    if n == 0 {
        DiffOut::empty()
    } else {
        let i = n - 1;
        let step = if !olds[i].kind.same_kind(&news[i].kind) {
            DiffOut {
                changes: seq![
                    ChangeModel::DynamicPartChanged {
                        index: i as usize,
                        old: olds[i].kind,
                        new: news[i].kind,
                    },
                ],
                issues: seq![
                    IssueModel::DynamicPartTypeMismatch {
                        index: i as usize,
                        old: olds[i].kind,
                        new: news[i].kind,
                    },
                ],
                ops: Seq::empty(),
            }
        } else {
            DiffOut::empty()
        };
        parts_diff_upto(olds, news, (n - 1) as nat).followed_by(step)
    }
}

/// Dynamic-part differences: a count mismatch, or a type mismatch per index.
pub open spec fn parts_diff(olds: Seq<DynamicPart>, news: Seq<DynamicPart>) -> DiffOut {
    if olds.len() != news.len() {
        DiffOut {
            changes: Seq::empty(),
            issues: seq![
                IssueModel::DynamicPartCountMismatch {
                    old: olds.len() as usize,
                    new: news.len() as usize,
                },
            ],
            ops: Seq::empty(),
        }
    } else {
        parts_diff_upto(olds, news, olds.len())
    }
}

/// Differences between the first `n` roots of equal-length root lists.
pub open spec fn roots_diff_upto(olds: Seq<NodeModel>, news: Seq<NodeModel>, n: nat) -> DiffOut
    decreases n,
{
    if n == 0 {
        DiffOut::empty()
    } else {
        let i = n - 1;
        roots_diff_upto(olds, news, (n - 1) as nat).followed_by(
            diff_node_models(olds[i], news[i], seq![i as usize]),
        )
    }
}

/// The description of a change in the number of roots.
pub open spec fn root_count_changed() -> Seq<char> {
    "Root node count changed"@
}

/// Root differences: a structural change when the counts differ, else per root.
pub open spec fn roots_diff(olds: Seq<NodeModel>, news: Seq<NodeModel>) -> DiffOut {
    if olds.len() != news.len() {
        DiffOut {
            changes: Seq::empty(),
            issues: seq![IssueModel::StructuralChange { description: root_count_changed() }],
            ops: Seq::empty(),
        }
    } else {
        roots_diff_upto(olds, news, olds.len())
    }
}

/// Everything a diff of two parsed templates finds.
pub open spec fn diff_asts(old: AstModel, new: AstModel) -> DiffOut {
    parts_diff(old.dynamic_parts, new.dynamic_parts).followed_by(roots_diff(old.roots, new.roots))
}

/// Whether two dynamic part kinds are compatible.
pub fn kinds_compatible(old: &DynamicKind, new: &DynamicKind) -> (r: bool)
    ensures
        r == old.same_kind(new),
{
    *old == *new
}

/// Records the differences between two parsed templates.
fn diff_template_asts(old_ast: &TemplateAst, new_ast: &TemplateAst) -> (r: DiffResult)
    ensures
        r.reports(diff_asts(old_ast@, new_ast@)),
{
    let mut acc = DiffAccumulator::new();
    let op = &old_ast.dynamic_parts;
    let np = &new_ast.dynamic_parts;
    if op.len() != np.len() {
        acc.push_issue(
            CompatibilityIssue::DynamicPartCountMismatch { old: op.len(), new: np.len() },
        );
        assert(acc@ =~= parts_diff(op@, np@));
    } else {
        let mut i: usize = 0;
        while i < op.len()
            invariant
                i <= op.len(),
                op.len() == np.len(),
                acc@ == DiffOut::empty().followed_by(parts_diff_upto(op@, np@, i as nat)),
            decreases op.len() - i,
        {
            let ghost before = acc@;
            if !kinds_compatible(&op[i].kind, &np[i].kind) {
                acc.push_issue(
                    CompatibilityIssue::DynamicPartTypeMismatch {
                        index: i,
                        old: op[i].kind.duplicate(),
                        new: np[i].kind.duplicate(),
                    },
                );
                acc.push_change(
                    TemplateChange::DynamicPartChanged {
                        index: i,
                        old: op[i].kind.duplicate(),
                        new: np[i].kind.duplicate(),
                    },
                );
            }
            assert(acc@ =~= DiffOut::empty().followed_by(parts_diff_upto(op@, np@, (i + 1) as nat)));
            i = i + 1;
        }
        proof {
            lemma_followed_by_empty(parts_diff(op@, np@));
        }
    }
    let ghost after_parts = acc@;
    assert(after_parts == parts_diff(op@, np@));
    let orr = &old_ast.roots;
    let nr = &new_ast.roots;
    if orr.len() != nr.len() {
        acc.push_issue(
            CompatibilityIssue::StructuralChange {
                description: String::from_str("Root node count changed"),
            },
        );
    } else {
        proof {
            lemma_followed_by_empty(after_parts);
        }
        let mut i: usize = 0;
        while i < orr.len()
            invariant
                i <= orr.len(),
                orr.len() == nr.len(),
                acc@ == after_parts.followed_by(
                    roots_diff_upto(nodes_view(orr@), nodes_view(nr@), i as nat),
                ),
            decreases orr.len() - i,
        {
            let mut p: Vec<usize> = Vec::new();
            p.push(i);
            assert(p@ =~= seq![i]);
            diff_nodes(&orr[i], &nr[i], &p, &mut acc);
            proof {
                lemma_followed_by_assoc(
                    after_parts,
                    roots_diff_upto(nodes_view(orr@), nodes_view(nr@), i as nat),
                    diff_node_models(orr@[i as int]@, nr@[i as int]@, seq![i]),
                );
            }
            i = i + 1;
        }
    }
    let compatible = acc.issues.len() == 0;
    DiffResult {
        compatible,
        changes: acc.changes,
        compatibility_issues: acc.issues,
        delta_ops: acc.ops,
    }
}


/// A parsed template kept for reuse, under the hash of its identifier.
struct CachedAst {
    key: String,
    ast: TemplateAst,
}

/// Template diffing engine
pub struct TemplateDiffer {
    /// Cache of parsed templates
    ast_cache: Vec<CachedAst>,
}

/// Parses the HTML of a template.
fn parse_template(html: &String, dynamic_parts: &Vec<DynamicPart>) -> (r: TemplateAst)
    ensures
        r@ == parsed_ast(html@, dynamic_parts@),
{
    let mut roots: Vec<TemplateNode> = Vec::new();
    roots.push(TemplateNode::Text(html.clone()));
    let r = TemplateAst {
        roots,
        dynamic_parts: duplicate_parts(dynamic_parts.as_slice()),
        original_html: html.clone(),
    };
    assert(r@.roots =~= parsed_ast(html@, dynamic_parts@).roots);
    r
}

impl TemplateDiffer {
    /// Every cached AST is the parse of its own HTML, and no hash is cached twice.
    pub closed spec fn wf(&self) -> bool {
        &&& forall|i: int|
            0 <= i < self.ast_cache@.len() ==> #[trigger] self.ast_cache@[i].ast@.roots
                == parsed_ast(self.ast_cache@[i].ast.original_html@, Seq::empty()).roots
        &&& forall|i: int, j: int|
            0 <= i < j < self.ast_cache@.len() ==> #[trigger] self.ast_cache@[i].key@
                != #[trigger] self.ast_cache@[j].key@
    }

    /// Create a new template differ
    pub fn new() -> (r: Self)
        ensures
            r.wf(),
    {
        TemplateDiffer { ast_cache: Vec::new() }
    }

    /// Parse template or retrieve from cache
    fn parse_or_get_cached(
        &mut self,
        hash: &String,
        html: &String,
        dynamic_parts: &Vec<DynamicPart>,
    ) -> (r: TemplateAst)
        requires
            old(self).wf(),
        ensures
            final(self).wf(),
            r@ == parsed_ast(html@, dynamic_parts@),
    {
        let mut i: usize = 0;
        while i < self.ast_cache.len()
            invariant
                i <= self.ast_cache.len(),
                self.wf(),
                forall|j: int| 0 <= j < i ==> #[trigger] self.ast_cache@[j].key@ != hash@,
            decreases self.ast_cache.len() - i,
        {
            if self.ast_cache[i].key == *hash {
                if self.ast_cache[i].ast.original_html == *html {
                    let roots = duplicate_nodes(&self.ast_cache[i].ast.roots);
                    let r = TemplateAst {
                        roots,
                        dynamic_parts: duplicate_parts(dynamic_parts.as_slice()),
                        original_html: html.clone(),
                    };
                    assert(r@.roots =~= nodes_view(self.ast_cache@[i as int].ast.roots@));
                    assert(self.ast_cache@[i as int].ast@.roots == parsed_ast(
                        self.ast_cache@[i as int].ast.original_html@,
                        Seq::empty(),
                    ).roots);
                    assert(r@.roots == parsed_ast(html@, dynamic_parts@).roots);
                    assert(r@ == parsed_ast(html@, dynamic_parts@));
                    return r;
                }
                let ast = parse_template(html, dynamic_parts);
                let stored = parse_template(html, dynamic_parts);
                let ghost before = self.ast_cache@;
                self.ast_cache.set(i, CachedAst { key: hash.clone(), ast: stored });
                assert forall|a: int, b: int|
                    0 <= a < b < self.ast_cache@.len() implies #[trigger] self.ast_cache@[a].key@
                        != #[trigger] self.ast_cache@[b].key@ by {
                    if a != i && b != i {
                        assert(before[a].key@ != before[b].key@);
                    } else if a == i {
                        assert(before[a].key@ != before[b].key@);
                    } else {
                        assert(before[a].key@ != before[b].key@);
                    }
                }
                return ast;
            }
            i = i + 1;
        }
        let ast = parse_template(html, dynamic_parts);
        let stored = parse_template(html, dynamic_parts);
        self.ast_cache.push(CachedAst { key: hash.clone(), ast: stored });
        ast
    }

    /// Diff two template updates
    pub fn diff_updates(&mut self, previous: &TemplateUpdate, current: &TemplateUpdate) -> (r: Result<
        DiffResult,
        DiffError,
    >)
        requires
            old(self).wf(),
        ensures
            final(self).wf(),
            r matches Ok(d) && d.reports(
                diff_asts(
                    parsed_ast(previous.html@, previous.dynamic_parts@),
                    parsed_ast(current.html@, current.dynamic_parts@),
                ),
            ),
    {
        let old_hash = previous.id.hash();
        let old_ast = self.parse_or_get_cached(&old_hash, &previous.html, &previous.dynamic_parts);
        let new_hash = current.id.hash();
        let new_ast = self.parse_or_get_cached(&new_hash, &current.html, &current.dynamic_parts);
        Ok(diff_template_asts(&old_ast, &new_ast))
    }

    /// Check if two dynamic part kinds are compatible
    pub fn dynamic_parts_compatible(&self, old: &DynamicKind, new: &DynamicKind) -> (r: bool)
        ensures
            r == old.same_kind(new),
    {
        kinds_compatible(old, new)
    }
}

/// Enhanced template parser that produces a proper AST
pub struct EnhancedTemplateParser;

impl EnhancedTemplateParser {
    /// Parse template HTML into an AST: the whole HTML as one text node.
    pub fn parse(html: &str) -> (r: Result<Vec<TemplateNode>, DiffError>)
        ensures
            r matches Ok(nodes) && nodes_view(nodes@) == seq![NodeModel::Text(html@)],
    {
        let mut nodes: Vec<TemplateNode> = Vec::new();
        nodes.push(TemplateNode::Text(String::from_str(html)));
        assert(nodes_view(nodes@) =~= seq![NodeModel::Text(html@)]);
        Ok(nodes)
    }
}


/// Trait for compatibility rules
pub trait CompatibilityRule {
    /// Check if the change is compatible
    fn check(
        &self,
        old_ast: &TemplateAst,
        new_ast: &TemplateAst,
        changes: &[TemplateChange],
    ) -> Option<CompatibilityIssue>;
}

/// The issue the root element rule finds: the first roots of both templates
/// are elements with different tags.
pub open spec fn root_rule_issue(old_ast: AstModel, new_ast: AstModel) -> Option<IssueModel> {
    if old_ast.roots.len() > 0 && new_ast.roots.len() > 0 {
        match (old_ast.roots[0], new_ast.roots[0]) {
            (NodeModel::Element { tag: t1, .. }, NodeModel::Element { tag: t2, .. }) => if t1
                != t2 {
                Some(IssueModel::RootElementChanged { old: t1, new: t2 })
            } else {
                None
            },
            _ => None,
        }
    } else {
        None
    }
}

/// The issue the dynamic part rule finds: the part counts differ.
pub open spec fn part_rule_issue(old_ast: AstModel, new_ast: AstModel) -> Option<IssueModel> {
    if old_ast.dynamic_parts.len() != new_ast.dynamic_parts.len() {
        Some(
            IssueModel::DynamicPartCountMismatch {
                old: old_ast.dynamic_parts.len() as usize,
                new: new_ast.dynamic_parts.len() as usize,
            },
        )
    } else {
        None
    }
}

/// The description of a replacement that loses component state.
pub open spec fn replacement_breaks_state() -> Seq<char> {
    "Element replacement breaks state preservation"@
}

/// The issue the state preservation rule finds: some change replaces an element.
pub open spec fn state_rule_issue(changes: Seq<ChangeModel>) -> Option<IssueModel> {
    if exists|i: int| 0 <= i < changes.len() && #[trigger] changes[i] is ElementReplaced {
        Some(IssueModel::StatePreservationIssue { description: replacement_breaks_state() })
    } else {
        None
    }
}

/// Rule: Root element must not change type
pub struct RootElementRule;

/// Rule: Dynamic parts must maintain compatible types
pub struct DynamicPartRule;

/// Rule: State preservation must be possible
pub struct StatePreservationRule;

impl CompatibilityRule for RootElementRule {
    fn check(
        &self,
        old_ast: &TemplateAst,
        new_ast: &TemplateAst,
        changes: &[TemplateChange],
    ) -> (r: Option<CompatibilityIssue>)
        ensures
            r matches Some(i) ==> root_rule_issue(old_ast@, new_ast@) == Some(i@),
            r is None ==> root_rule_issue(old_ast@, new_ast@) is None,
    {
        if old_ast.roots.len() == 0 || new_ast.roots.len() == 0 {
            return None;
        }
        match (&old_ast.roots[0], &new_ast.roots[0]) {
            (TemplateNode::Element { tag: t1, .. }, TemplateNode::Element { tag: t2, .. }) => {
                if !(*t1 == *t2) {
                    Some(CompatibilityIssue::RootElementChanged { old: t1.clone(), new: t2.clone() })
                } else {
                    None
                }
            },
            _ => None,
        }
    }
}

impl CompatibilityRule for DynamicPartRule {
    fn check(
        &self,
        old_ast: &TemplateAst,
        new_ast: &TemplateAst,
        changes: &[TemplateChange],
    ) -> (r: Option<CompatibilityIssue>)
        ensures
            r matches Some(i) ==> part_rule_issue(old_ast@, new_ast@) == Some(i@),
            r is None ==> part_rule_issue(old_ast@, new_ast@) is None,
    {
        if old_ast.dynamic_parts.len() != new_ast.dynamic_parts.len() {
            return Some(
                CompatibilityIssue::DynamicPartCountMismatch {
                    old: old_ast.dynamic_parts.len(),
                    new: new_ast.dynamic_parts.len(),
                },
            );
        }
        None
    }
}

impl CompatibilityRule for StatePreservationRule {
    fn check(
        &self,
        old_ast: &TemplateAst,
        new_ast: &TemplateAst,
        changes: &[TemplateChange],
    ) -> (r: Option<CompatibilityIssue>)
        ensures
            r matches Some(i) ==> state_rule_issue(changes_view(changes@)) == Some(i@),
            r is None ==> state_rule_issue(changes_view(changes@)) is None,
    {
        let ghost cv = changes_view(changes@);
        let mut i: usize = 0;
        while i < changes.len()
            invariant
                i <= changes.len(),
                cv == changes_view(changes@),
                forall|j: int| 0 <= j < i ==> !(#[trigger] cv[j] is ElementReplaced),
            decreases changes.len() - i,
        {
            match &changes[i] {
                TemplateChange::ElementReplaced { .. } => {
                    assert(cv[i as int] is ElementReplaced);
                    return Some(
                        CompatibilityIssue::StatePreservationIssue {
                            description: String::from_str(
                                "Element replacement breaks state preservation",
                            ),
                        },
                    );
                },
                _ => {},
            }
            i = i + 1;
        }
        None
    }
}

/// The rules a compatibility checker applies.
#[derive(Debug, Clone, Copy, PartialEq, Eq)]
pub enum BuiltinRule {
    RootElement,
    DynamicPart,
    StatePreservation,
}

/// The issue one rule finds.
pub open spec fn rule_issue(
    rule: BuiltinRule,
    old_ast: AstModel,
    new_ast: AstModel,
    changes: Seq<ChangeModel>,
) -> Option<IssueModel> {
    match rule {
        BuiltinRule::RootElement => root_rule_issue(old_ast, new_ast),
        BuiltinRule::DynamicPart => part_rule_issue(old_ast, new_ast),
        BuiltinRule::StatePreservation => state_rule_issue(changes),
    }
}

/// The issues a list of rules finds, in rule order.
pub open spec fn rules_issues(
    rules: Seq<BuiltinRule>,
    old_ast: AstModel,
    new_ast: AstModel,
    changes: Seq<ChangeModel>,
) -> Seq<IssueModel>
    decreases rules.len(),
{
    if rules.len() == 0 {
        Seq::empty()
    } else {
        let prev = rules_issues(rules.drop_last(), old_ast, new_ast, changes);
        match rule_issue(rules.last(), old_ast, new_ast, changes) {
            Some(i) => prev.push(i),
            None => prev,
        }
    }
}

/// The default rules: root element, dynamic part count, state preservation.
pub open spec fn default_rules() -> Seq<BuiltinRule> {
    seq![BuiltinRule::RootElement, BuiltinRule::DynamicPart, BuiltinRule::StatePreservation]
}

/// Compatibility checker for determining hot reload eligibility
pub struct CompatibilityChecker {
    rules: Vec<BuiltinRule>,
}

impl CompatibilityChecker {
    /// The rules this checker applies, in order.
    pub closed spec fn rules(&self) -> Seq<BuiltinRule> {
        self.rules@
    }

    /// Create a new compatibility checker with default rules
    pub fn new() -> (r: Self)
        ensures
            r.rules() == default_rules(),
    {
        let mut rules: Vec<BuiltinRule> = Vec::new();
        rules.push(BuiltinRule::RootElement);
        rules.push(BuiltinRule::DynamicPart);
        rules.push(BuiltinRule::StatePreservation);
        assert(rules@ =~= default_rules());
        CompatibilityChecker { rules }
    }

    /// Check if templates are compatible for hot reload
    pub fn check(
        &self,
        old_ast: &TemplateAst,
        new_ast: &TemplateAst,
        changes: &[TemplateChange],
    ) -> (r: Vec<CompatibilityIssue>)
        ensures
            issues_view(r@) == rules_issues(self.rules(), old_ast@, new_ast@, changes_view(changes@)),
    {
        let ghost cv = changes_view(changes@);
        let mut out: Vec<CompatibilityIssue> = Vec::new();
        let mut i: usize = 0;
        while i < self.rules.len()
            invariant
                i <= self.rules.len(),
                cv == changes_view(changes@),
                issues_view(out@) == rules_issues(self.rules@.subrange(0, i as int), old_ast@, new_ast@, cv),
            decreases self.rules.len() - i,
        {
            let found = match self.rules[i] {
                BuiltinRule::RootElement => RootElementRule.check(old_ast, new_ast, changes),
                BuiltinRule::DynamicPart => DynamicPartRule.check(old_ast, new_ast, changes),
                BuiltinRule::StatePreservation => StatePreservationRule.check(old_ast, new_ast, changes),
            };
            let ghost before = out@;
            match found {
                Some(issue) => {
                    out.push(issue);
                },
                None => {},
            }
            proof {
                let rs = self.rules@.subrange(0, i + 1);
                assert(rs.drop_last() =~= self.rules@.subrange(0, i as int));
                assert(issues_view(out@) =~= rules_issues(rs, old_ast@, new_ast@, cv));
            }
            i = i + 1;
        }
        assert(self.rules@.subrange(0, self.rules@.len() as int) =~= self.rules@);
        out
    }
}

/// What an operation is deduplicated by: the node it targets, or for an
/// insertion, the parent and the position.
pub enum OpKey {
    Path(Seq<usize>),
    Insert(Seq<usize>, usize),
}

/// The key of an operation.
pub open spec fn op_key(o: OpModel) -> OpKey {
    match o {
        OpModel::UpdateText { path, .. } => OpKey::Path(path),
        OpModel::UpdateAttribute { path, .. } => OpKey::Path(path),
        OpModel::RemoveNode { path } => OpKey::Path(path),
        OpModel::ReplaceNode { path, .. } => OpKey::Path(path),
        OpModel::InsertNode { parent_path, index, .. } => OpKey::Insert(parent_path, index),
    }
}

/// No later operation has the key of the operation at `i`.
pub open spec fn is_last_key(ops: Seq<OpModel>, i: int) -> bool {
    forall|j: int| i < j < ops.len() ==> op_key(#[trigger] ops[j]) != op_key(ops[i])
}

/// The positions, among the first `n`, of operations that are the last with their key.
pub open spec fn kept_indices(ops: Seq<OpModel>, n: nat) -> Seq<int>
    decreases n,
{
    if n == 0 {
        Seq::empty()
    } else {
        let prev = kept_indices(ops, (n - 1) as nat);
        if is_last_key(ops, n - 1) {
            prev.push(n - 1)
        } else {
            prev
        }
    }
}

/// The operations a batch keeps: for each key, its last operation, in order.
pub open spec fn dedup_ops(ops: Seq<OpModel>) -> Seq<OpModel> {
    kept_indices(ops, ops.len()).map_values(|k: int| ops[k])
}

/// Whether two paths are equal.
pub fn paths_equal(a: &Vec<usize>, b: &Vec<usize>) -> (r: bool)
    ensures
        r == (a@ == b@),
{
    if a.len() != b.len() {
        return false;
    }
    let mut i: usize = 0;
    while i < a.len()
        invariant
            i <= a.len(),
            a.len() == b.len(),
            forall|j: int| 0 <= j < i ==> a@[j] == b@[j],
        decreases a.len() - i,
    {
        if a[i] != b[i] {
            return false;
        }
        i = i + 1;
    }
    assert(a@ =~= b@);
    true
}

impl DeltaOperation {
    /// A copy of this operation.
    pub fn duplicate(&self) -> (r: Self)
        ensures
            r@ == self@,
    {
        match self {
            DeltaOperation::UpdateText { path, content } => DeltaOperation::UpdateText {
                path: copy_path(path.as_slice()),
                content: content.clone(),
            },
            DeltaOperation::UpdateAttribute { path, name, value } => {
                DeltaOperation::UpdateAttribute {
                    path: copy_path(path.as_slice()),
                    name: name.clone(),
                    value: value.clone(),
                }
            },
            DeltaOperation::InsertNode { parent_path, index, html } => {
                DeltaOperation::InsertNode {
                    parent_path: copy_path(parent_path.as_slice()),
                    index: *index,
                    html: html.clone(),
                }
            },
            DeltaOperation::RemoveNode { path } => DeltaOperation::RemoveNode {
                path: copy_path(path.as_slice()),
            },
            DeltaOperation::ReplaceNode { path, html } => DeltaOperation::ReplaceNode {
                path: copy_path(path.as_slice()),
                html: html.clone(),
            },
        }
    }

    /// Whether two operations have the same key.
    pub fn same_key(&self, other: &Self) -> (r: bool)
        ensures
            r == (op_key(self@) == op_key(other@)),
    {
        let (p, q, insert_p, insert_q) = match (self, other) {
            (DeltaOperation::InsertNode { parent_path: a, index: i, .. },
             DeltaOperation::InsertNode { parent_path: b, index: j, .. }) => {
                return *i == *j && paths_equal(a, b);
            },
            (DeltaOperation::InsertNode { .. }, _) => {
                return false;
            },
            (_, DeltaOperation::InsertNode { .. }) => {
                return false;
            },
            _ => (self.target_path(), other.target_path(), false, false),
        };
        paths_equal(p, q)
    }

    /// The path of a non-insertion operation.
    fn target_path(&self) -> (r: &Vec<usize>)
        requires
            !(self is InsertNode),
        ensures
            op_key(self@) == OpKey::Path(r@),
    {
        match self {
            DeltaOperation::UpdateText { path, .. } => path,
            DeltaOperation::UpdateAttribute { path, .. } => path,
            DeltaOperation::RemoveNode { path } => path,
            DeltaOperation::ReplaceNode { path, .. } => path,
            DeltaOperation::InsertNode { parent_path, .. } => parent_path,
        }
    }
}

/// Batch operation builder for efficient updates
pub struct BatchOperationBuilder {
    operations: Vec<DeltaOperation>,
}

impl BatchOperationBuilder {
    /// The operations added so far, in order.
    pub closed spec fn operations(&self) -> Seq<OpModel> {
        ops_view(self.operations@)
    }

    pub fn new() -> (r: Self)
        ensures
            r.operations() == Seq::<OpModel>::empty(),
    {
        let r = BatchOperationBuilder { operations: Vec::new() };
        assert(r.operations() =~= Seq::<OpModel>::empty());
        r
    }

    /// Add a delta operation
    pub fn add_operation(&mut self, op: DeltaOperation)
        ensures
            final(self).operations() == old(self).operations().push(op@),
    {
        self.operations.push(op);
        assert(ops_view(self.operations@) =~= ops_view(old(self).operations@).push(op@));
    }

    /// Build optimized batch operations: for each target, only the last
    /// operation added, in the order they were added.
    pub fn build(self) -> (r: Vec<DeltaOperation>)
        ensures
            ops_view(r@) == dedup_ops(self.operations()),
    {
        let ops = &self.operations;
        let ghost v = ops_view(ops@);
        let mut out: Vec<DeltaOperation> = Vec::new();
        let mut i: usize = 0;
        while i < ops.len()
            invariant
                i <= ops.len(),
                v == ops_view(ops@),
                ops_view(out@) == kept_indices(v, i as nat).map_values(|k: int| v[k]),
            decreases ops.len() - i,
        {
            let mut last = true;
            let mut j: usize = i + 1;
            while j < ops.len()
                invariant
                    i < j <= ops.len(),
                    v == ops_view(ops@),
                    last == (forall|k: int| i < k < j ==> op_key(#[trigger] v[k]) != op_key(v[i as int])),
                decreases ops.len() - j,
            {
                assert(v[j as int] == ops@[j as int]@);
                assert(v[i as int] == ops@[i as int]@);
                if ops[j].same_key(&ops[i]) {
                    last = false;
                }
                j = j + 1;
            }
            let ghost before = out@;
            if last {
                out.push(ops[i].duplicate());
            }
            proof {
                let f = |k: int| v[k];
                assert(last == is_last_key(v, i as int));
                let prev = kept_indices(v, i as nat);
                if last {
                    assert(kept_indices(v, (i + 1) as nat) == prev.push(i as int));
                    assert(prev.push(i as int).map_values(f) =~= prev.map_values(f).push(v[i as int]));
                    assert(ops_view(out@) =~= ops_view(before).push(ops@[i as int]@));
                } else {
                    assert(kept_indices(v, (i + 1) as nat) == prev);
                    assert(out@ == before);
                }
                assert(ops_view(out@) =~= kept_indices(v, (i + 1) as nat).map_values(f));
            }
            i = i + 1;
        }
        out
    }
}

/// The kept positions are increasing, in range, and each is the last with its key.
pub proof fn lemma_kept_indices(ops: Seq<OpModel>, n: nat)
    requires
        n <= ops.len(),
    ensures
        forall|a: int|
            0 <= a < kept_indices(ops, n).len() ==> 0 <= #[trigger] kept_indices(ops, n)[a] < n
                && is_last_key(ops, kept_indices(ops, n)[a]),
        forall|a: int, b: int|
            0 <= a < b < kept_indices(ops, n).len() ==> #[trigger] kept_indices(ops, n)[a]
                < #[trigger] kept_indices(ops, n)[b],
    decreases n,
{
    if n > 0 {
        lemma_kept_indices(ops, (n - 1) as nat);
        let prev = kept_indices(ops, (n - 1) as nat);
        if is_last_key(ops, n - 1) {
            let cur = prev.push(n - 1);
            assert(kept_indices(ops, n) == cur);
            assert forall|a: int| 0 <= a < cur.len() implies 0 <= #[trigger] cur[a] < n && is_last_key(ops, cur[a]) by {
                if a < prev.len() {
                    assert(cur[a] == prev[a]);
                }
            }
            assert forall|a: int, b: int| 0 <= a < b < cur.len() implies #[trigger] cur[a] < #[trigger] cur[b] by {
                if b < prev.len() {
                    assert(cur[a] == prev[a] && cur[b] == prev[b]);
                } else {
                    assert(cur[a] == prev[a]);
                }
            }
        } else {
            assert(kept_indices(ops, n) == prev);
        }
    }
}

/// A built batch holds at most one operation per key, and each operation it
/// holds is the last one added with that key.
pub proof fn lemma_batch_keys_unique(ops: Seq<OpModel>)
    ensures
        forall|a: int, b: int|
            0 <= a < b < dedup_ops(ops).len() ==> op_key(#[trigger] dedup_ops(ops)[a]) != op_key(
                #[trigger] dedup_ops(ops)[b],
            ),
        forall|a: int|
            0 <= a < dedup_ops(ops).len() ==> exists|k: int|
                0 <= k < ops.len() && is_last_key(ops, k) && #[trigger] dedup_ops(ops)[a] == ops[k],
{
    let idx = kept_indices(ops, ops.len());
    lemma_kept_indices(ops, ops.len());
    assert forall|a: int, b: int|
        0 <= a < b < dedup_ops(ops).len() implies op_key(#[trigger] dedup_ops(ops)[a]) != op_key(
            #[trigger] dedup_ops(ops)[b],
        ) by {
        assert(idx[a] < idx[b]);
        assert(is_last_key(ops, idx[a]));
        assert(op_key(ops[idx[b]]) != op_key(ops[idx[a]]));
    }
    assert forall|a: int| 0 <= a < dedup_ops(ops).len() implies exists|k: int|
        0 <= k < ops.len() && is_last_key(ops, k) && #[trigger] dedup_ops(ops)[a] == ops[k] by {
        assert(dedup_ops(ops)[a] == ops[idx[a]]);
    }
}


/// The operation added last always reaches the built batch, as its last
/// element, and no other operation there shares its key.
pub proof fn lemma_added_operation_kept(ops: Seq<OpModel>, op: OpModel)
    ensures
        dedup_ops(ops.push(op)).len() > 0,
        dedup_ops(ops.push(op)).last() == op,
        forall|a: int|
            0 <= a < dedup_ops(ops.push(op)).len() - 1 ==> op_key(#[trigger] dedup_ops(ops.push(op))[a]) != op_key(op),
{
    let w = ops.push(op);
    let n = w.len();
    assert(is_last_key(w, n - 1));
    assert(kept_indices(w, n) == kept_indices(w, (n - 1) as nat).push(n - 1));
    let d = dedup_ops(w);
    assert(d.last() == w[n - 1]);
    lemma_batch_keys_unique(w);
    assert forall|a: int| 0 <= a < d.len() - 1 implies op_key(#[trigger] d[a]) != op_key(op) by {
        assert(op_key(d[a]) != op_key(d[d.len() - 1]));
    }
}

/// Operations whose key is not `k`.
pub open spec fn other_key(k: OpKey) -> spec_fn(OpModel) -> bool {
    |o: OpModel| op_key(o) != k
}

/// Filtering by two keys in either order gives the same operations.
proof fn lemma_filter_commutes(s: Seq<OpModel>, a: OpKey, b: OpKey)
    ensures
        s.filter(other_key(a)).filter(other_key(b)) == s.filter(other_key(b)).filter(other_key(a)),
    decreases s.len(),
{
    reveal(Seq::filter);
    if s.len() > 0 {
        lemma_filter_commutes(s.drop_last(), a, b);
        let fa = s.drop_last().filter(other_key(a));
        let fb = s.drop_last().filter(other_key(b));
        let y = s.last();
        if other_key(a)(y) {
            assert(s.filter(other_key(a)) == fa.push(y));
            assert(fa.push(y).drop_last() == fa);
        }
        if other_key(b)(y) {
            assert(s.filter(other_key(b)) == fb.push(y));
            assert(fb.push(y).drop_last() == fb);
        }
    }
}

/// Filtering twice by one key is filtering once.
proof fn lemma_filter_twice(s: Seq<OpModel>, a: OpKey)
    ensures
        s.filter(other_key(a)).filter(other_key(a)) == s.filter(other_key(a)),
    decreases s.len(),
{
    reveal(Seq::filter);
    if s.len() > 0 {
        lemma_filter_twice(s.drop_last(), a);
        let fa = s.drop_last().filter(other_key(a));
        if other_key(a)(s.last()) {
            assert(fa.push(s.last()).drop_last() == fa);
        }
    }
}

/// Among the first `n` operations of `s`, those kept when `x` is added
/// after `s` are those kept in `s` without `x`'s key.
proof fn lemma_kept_before_push(s: Seq<OpModel>, x: OpModel, n: nat)
    requires
        n <= s.len(),
    ensures
        kept_indices(s.push(x), n).map_values(|i: int| s.push(x)[i]) == kept_indices(s, n).map_values(
            |i: int| s[i],
        ).filter(other_key(op_key(x))),
    decreases n,
{
    reveal(Seq::filter);
    let w = s.push(x);
    let fw = |i: int| w[i];
    let fs = |i: int| s[i];
    let p = other_key(op_key(x));
    if n == 0 {
        assert(kept_indices(w, 0).map_values(fw) =~= Seq::<OpModel>::empty());
        assert(kept_indices(s, 0).map_values(fs) =~= Seq::<OpModel>::empty());
    } else {
        let i = n - 1;
        lemma_kept_before_push(s, x, (n - 1) as nat);
        let kw = kept_indices(w, (n - 1) as nat);
        let ks = kept_indices(s, (n - 1) as nat);
        assert(w[i] == s[i]);
        assert(is_last_key(w, i) == (is_last_key(s, i) && p(s[i]))) by {
            if is_last_key(w, i) {
                assert forall|j: int| i < j < s.len() implies op_key(#[trigger] s[j]) != op_key(s[i]) by {
                    assert(w[j] == s[j]);
                }
                assert(w[s.len() as int] == x);
            }
            if is_last_key(s, i) && p(s[i]) {
                assert forall|j: int| i < j < w.len() implies op_key(#[trigger] w[j]) != op_key(w[i]) by {
                    if j < s.len() {
                        assert(w[j] == s[j]);
                    } else {
                        assert(w[j] == x);
                    }
                }
            }
        }
        assert(kw.push(i).map_values(fw) =~= kw.map_values(fw).push(s[i]));
        assert(ks.push(i).map_values(fs) =~= ks.map_values(fs).push(s[i]));
        let m = ks.map_values(fs);
        assert(m.push(s[i]).drop_last() =~= m);
    }
}

/// Adding `x` after `s` keeps what `s` kept, less what has `x`'s key, and
/// then `x`.
proof fn lemma_dedup_push(s: Seq<OpModel>, x: OpModel)
    ensures
        dedup_ops(s.push(x)) == dedup_ops(s).filter(other_key(op_key(x))).push(x),
{
    let w = s.push(x);
    let n = s.len();
    assert(is_last_key(w, n as int));
    lemma_kept_before_push(s, x, n);
    let kw = kept_indices(w, n);
    assert(kept_indices(w, w.len()) == kw.push(n as int));
    assert(kw.push(n as int).map_values(|i: int| w[i]) =~= kw.map_values(|i: int| w[i]).push(x));
}

/// Dropping a key before or after keeping the last operation of each key
/// gives the same operations.
proof fn lemma_dedup_filter(s: Seq<OpModel>, k: OpKey)
    ensures
        dedup_ops(s.filter(other_key(k))) == dedup_ops(s).filter(other_key(k)),
    decreases s.len(),
{
    reveal(Seq::filter);
    if s.len() == 0 {
        assert(kept_indices(s, 0).map_values(|i: int| s[i]) =~= Seq::<OpModel>::empty());
        assert(dedup_ops(s) =~= Seq::<OpModel>::empty());
    } else {
        let t = s.drop_last();
        let y = s.last();
        assert(s == t.push(y));
        lemma_dedup_filter(t, k);
        let p = other_key(k);
        let q = other_key(op_key(y));
        lemma_dedup_push(t, y);
        let d = dedup_ops(t);
        let r = d.filter(q).push(y);
        assert(r.drop_last() == d.filter(q));
        if p(y) {
            assert(s.filter(p) == t.filter(p).push(y));
            lemma_dedup_push(t.filter(p), y);
            lemma_filter_commutes(d, k, op_key(y));
        } else {
            assert(s.filter(p) == t.filter(p));
            assert(op_key(y) == k);
            lemma_filter_twice(d, k);
        }
    }
}

/// Building after adding `op` gives what building without the operations of
/// `op`'s key gave, followed by `op`.
pub proof fn lemma_added_operation_replaces_its_key(ops: Seq<OpModel>, op: OpModel)
    ensures
        dedup_ops(ops.push(op)) == dedup_ops(ops.filter(other_key(op_key(op)))).push(op),
{
    lemma_dedup_push(ops, op);
    lemma_dedup_filter(ops, op_key(op));
}

/// A node built only from elements and text.
pub open spec fn plain_node(n: NodeModel) -> bool
    decreases n,
{
    match n {
        NodeModel::Text(_) => true,
        NodeModel::Element { children, .. } => forall|i: int|
            0 <= i < children.len() ==> plain_node(#[trigger] children[i]),
        _ => false,
    }
}

/// The last attribute with a given name holds the value found for that name.
proof fn lemma_last_value_of_last(attrs: Seq<AttrModel>, i: int)
    requires
        0 <= i < attrs.len(),
        is_last_name(attrs, i),
    ensures
        last_value(attrs, attrs[i].name) == Some(attrs[i].value),
    decreases attrs.len(),
{
    if i < attrs.len() - 1 {
        let d = attrs.drop_last();
        assert(attrs.last().name != attrs[i].name);
        assert(d[i] == attrs[i]);
        assert(is_last_name(d, i)) by {
            assert forall|j: int| i < j < d.len() implies #[trigger] d[j].name != d[i].name by {
                assert(d[j] == attrs[j]);
            }
        }
        lemma_last_value_of_last(d, i);
    }
}

/// Comparing a list of attributes with itself finds nothing.
proof fn lemma_attrs_diff_self(attrs: Seq<AttrModel>, path: Seq<usize>, n: nat)
    requires
        n <= attrs.len(),
    ensures
        attrs_diff_upto(attrs, attrs, path, n) == DiffOut::empty(),
    decreases n,
{
    if n > 0 {
        lemma_attrs_diff_self(attrs, path, (n - 1) as nat);
        let i = n - 1;
        if is_last_name(attrs, i) {
            lemma_last_value_of_last(attrs, i);
        }
        lemma_followed_by_empty(DiffOut::empty());
    }
}

/// Comparing a node built from elements and text with itself finds nothing.
proof fn lemma_node_diff_self(n: NodeModel, path: Seq<usize>)
    requires
        plain_node(n),
    ensures
        diff_node_models(n, n, path) == DiffOut::empty(),
    decreases n, 0nat,
{
    match n {
        NodeModel::Element { tag, attributes, children } => {
            lemma_attrs_diff_self(attributes, path, attributes.len());
            lemma_children_diff_self(children, path, children.len());
            lemma_followed_by_empty(DiffOut::empty());
        },
        _ => {},
    }
}

/// Comparing children built from elements and text with themselves finds nothing.
proof fn lemma_children_diff_self(cs: Seq<NodeModel>, parent: Seq<usize>, n: nat)
    requires
        n <= cs.len(),
        forall|i: int| 0 <= i < cs.len() ==> plain_node(#[trigger] cs[i]),
    ensures
        children_diff(cs, cs, parent, n) == DiffOut::empty(),
    decreases cs, n,
{
    if n > 0 {
        lemma_children_diff_self(cs, parent, (n - 1) as nat);
        let i = n - 1;
        lemma_node_diff_self(cs[i], parent.push(i as usize));
        lemma_followed_by_empty(DiffOut::empty());
    }
}

/// Comparing a template built from elements and text with itself finds no
/// change, no issue and no operation: it is hot-reloadable as it is.
pub proof fn lemma_identical_templates_compatible(ast: AstModel)
    requires
        forall|i: int| 0 <= i < ast.roots.len() ==> plain_node(#[trigger] ast.roots[i]),
    ensures
        diff_asts(ast, ast).is_empty(),
{
    assert forall|n: nat| n <= ast.dynamic_parts.len() implies #[trigger] parts_diff_upto(
        ast.dynamic_parts,
        ast.dynamic_parts,
        n,
    ) == DiffOut::empty() by {
        lemma_parts_diff_self(ast.dynamic_parts, n);
    }
    assert forall|n: nat| n <= ast.roots.len() implies #[trigger] roots_diff_upto(
        ast.roots,
        ast.roots,
        n,
    ) == DiffOut::empty() by {
        lemma_roots_diff_self(ast.roots, n);
    }
    lemma_followed_by_empty(DiffOut::empty());
}

proof fn lemma_parts_diff_self(parts: Seq<DynamicPart>, n: nat)
    requires
        n <= parts.len(),
    ensures
        parts_diff_upto(parts, parts, n) == DiffOut::empty(),
    decreases n,
{
    if n > 0 {
        lemma_parts_diff_self(parts, (n - 1) as nat);
        lemma_followed_by_empty(DiffOut::empty());
    }
}

proof fn lemma_roots_diff_self(roots: Seq<NodeModel>, n: nat)
    requires
        n <= roots.len(),
        forall|i: int| 0 <= i < roots.len() ==> plain_node(#[trigger] roots[i]),
    ensures
        roots_diff_upto(roots, roots, n) == DiffOut::empty(),
    decreases n,
{
    if n > 0 {
        lemma_roots_diff_self(roots, (n - 1) as nat);
        lemma_node_diff_self(roots[n - 1], seq![(n - 1) as usize]);
        lemma_followed_by_empty(DiffOut::empty());
    }
}

/// Re-sending an unchanged template is hot-reloadable and finds nothing.
pub proof fn lemma_unchanged_template_compatible(html: Seq<char>, parts: Seq<DynamicPart>)
    ensures
        diff_asts(parsed_ast(html, parts), parsed_ast(html, parts)).is_empty(),
{
    lemma_identical_templates_compatible(parsed_ast(html, parts));
}

/// Editing the HTML of a template, with its dynamic parts unchanged, is one
/// text change of the root with one text update, and no issue.
pub proof fn lemma_text_edit_compatible(old_html: Seq<char>, new_html: Seq<char>, parts: Seq<DynamicPart>)
    requires
        old_html != new_html,
    ensures
        diff_asts(parsed_ast(old_html, parts), parsed_ast(new_html, parts)) == (DiffOut {
            changes: seq![ChangeModel::TextChanged { path: seq![0usize], old: old_html, new: new_html }],
            issues: Seq::empty(),
            ops: seq![OpModel::UpdateText { path: seq![0usize], content: new_html }],
        }),
{
    lemma_parts_diff_self(parts, parts.len());
    let o = parsed_ast(old_html, parts);
    let n = parsed_ast(new_html, parts);
    lemma_followed_by_empty(diff_node_models(o.roots[0], n.roots[0], seq![0usize]));
    lemma_followed_by_empty(roots_diff(o.roots, n.roots));
    let one: nat = 1;
    assert(seq![(one - 1) as usize] =~= seq![0usize]);
    assert(roots_diff_upto(o.roots, n.roots, 0) == DiffOut::empty());
    assert(roots_diff_upto(o.roots, n.roots, one) == DiffOut::empty().followed_by(
        diff_node_models(o.roots[0], n.roots[0], seq![0usize]),
    ));
}

/// A template whose number of dynamic parts changed is never hot-reloadable.
pub proof fn lemma_part_count_change_incompatible(old_ast: AstModel, new_ast: AstModel)
    requires
        old_ast.dynamic_parts.len() != new_ast.dynamic_parts.len(),
    ensures
        diff_asts(old_ast, new_ast).issues.len() > 0,
        diff_asts(old_ast, new_ast).issues[0] == (IssueModel::DynamicPartCountMismatch {
            old: old_ast.dynamic_parts.len() as usize,
            new: new_ast.dynamic_parts.len() as usize,
        }),
{
}


/// Among the first `n` of two equal-length part lists, a part whose kind
/// changed at `i` is reported as a type mismatch and as a changed part.
proof fn lemma_parts_upto_report_kind_change(olds: Seq<DynamicPart>, news: Seq<DynamicPart>, n: nat, i: int)
    requires
        olds.len() == news.len(),
        0 <= i < n <= olds.len(),
        !olds[i].kind.same_kind(&news[i].kind),
    ensures
        parts_diff_upto(olds, news, n).issues.contains(
            IssueModel::DynamicPartTypeMismatch { index: i as usize, old: olds[i].kind, new: news[i].kind },
        ),
        parts_diff_upto(olds, news, n).changes.contains(
            ChangeModel::DynamicPartChanged { index: i as usize, old: olds[i].kind, new: news[i].kind },
        ),
    decreases n,
{
    let prev = parts_diff_upto(olds, news, (n - 1) as nat);
    let all = parts_diff_upto(olds, news, n);
    let issue = IssueModel::DynamicPartTypeMismatch { index: i as usize, old: olds[i].kind, new: news[i].kind };
    let change = ChangeModel::DynamicPartChanged { index: i as usize, old: olds[i].kind, new: news[i].kind };
    if i == n - 1 {
        assert(all.issues[prev.issues.len() as int] == issue);
        assert(all.changes[prev.changes.len() as int] == change);
    } else {
        lemma_parts_upto_report_kind_change(olds, news, (n - 1) as nat, i);
        let a = choose|a: int| 0 <= a < prev.issues.len() && prev.issues[a] == issue;
        let b = choose|b: int| 0 <= b < prev.changes.len() && prev.changes[b] == change;
        assert(all.issues[a] == issue);
        assert(all.changes[b] == change);
    }
}

/// A template whose dynamic parts keep their number but change kind at some
/// position is never hot-reloadable: the diff reports that position as a
/// type mismatch, from the old kind to the new, and as a changed part, and
/// a result reporting the diff is not compatible.
pub proof fn lemma_part_kind_change_incompatible(old_ast: AstModel, new_ast: AstModel, i: int)
    requires
        old_ast.dynamic_parts.len() == new_ast.dynamic_parts.len(),
        0 <= i < old_ast.dynamic_parts.len(),
        !old_ast.dynamic_parts[i].kind.same_kind(&new_ast.dynamic_parts[i].kind),
    ensures
        diff_asts(old_ast, new_ast).issues.contains(
            IssueModel::DynamicPartTypeMismatch {
                index: i as usize,
                old: old_ast.dynamic_parts[i].kind,
                new: new_ast.dynamic_parts[i].kind,
            },
        ),
        diff_asts(old_ast, new_ast).changes.contains(
            ChangeModel::DynamicPartChanged {
                index: i as usize,
                old: old_ast.dynamic_parts[i].kind,
                new: new_ast.dynamic_parts[i].kind,
            },
        ),
        forall|d: DiffResult| #[trigger] d.reports(diff_asts(old_ast, new_ast)) ==> !d.compatible,
{
    let olds = old_ast.dynamic_parts;
    let news = new_ast.dynamic_parts;
    lemma_parts_upto_report_kind_change(olds, news, olds.len(), i);
    let p = parts_diff(olds, news);
    let all = diff_asts(old_ast, new_ast);
    let issue = IssueModel::DynamicPartTypeMismatch { index: i as usize, old: olds[i].kind, new: news[i].kind };
    let change = ChangeModel::DynamicPartChanged { index: i as usize, old: olds[i].kind, new: news[i].kind };
    let a = choose|a: int| 0 <= a < p.issues.len() && p.issues[a] == issue;
    let b = choose|b: int| 0 <= b < p.changes.len() && p.changes[b] == change;
    assert(all.issues[a] == issue);
    assert(all.changes[b] == change);
}

/// The debug rendering of a dynamic part kind.
pub open spec fn kind_debug(k: DynamicKind) -> Seq<char> {
    match k {
        DynamicKind::Expression => "Expression"@,
        DynamicKind::EventHandler { event } => "EventHandler { event: "@ + quoted(event@) + " }"@,
        DynamicKind::Conditional => "Conditional"@,
        DynamicKind::Loop => "Loop"@,
    }
}

/// The debug rendering of a compatibility issue.
pub open spec fn issue_debug(i: IssueModel) -> Seq<char> {
    match i {
        IssueModel::RootElementChanged { old, new } => "RootElementChanged { old: "@ + quoted(old)
            + ", new: "@ + quoted(new) + " }"@,
        IssueModel::DynamicPartCountMismatch { old, new } => "DynamicPartCountMismatch { old: "@
            + decimal(old as nat) + ", new: "@ + decimal(new as nat) + " }"@,
        IssueModel::DynamicPartTypeMismatch { index, old, new } => "DynamicPartTypeMismatch { index: "@
            + decimal(index as nat) + ", old: "@ + kind_debug(old) + ", new: "@ + kind_debug(new)
            + " }"@,
        IssueModel::StructuralChange { description } => "StructuralChange { description: "@ + quoted(
            description,
        ) + " }"@,
        IssueModel::StatePreservationIssue { description } => "StatePreservationIssue { description: "@
            + quoted(description) + " }"@,
    }
}

/// The debug renderings of issues, separated by `, `.
pub open spec fn issue_items(s: Seq<IssueModel>) -> Seq<char>
    decreases s.len(),
{
    if s.len() == 0 {
        Seq::empty()
    } else if s.len() == 1 {
        issue_debug(s[0])
    } else {
        issue_items(s.drop_last()) + ", "@ + issue_debug(s.last())
    }
}

/// The debug rendering of a list of issues, such as `[StructuralChange { .. }]`.
pub open spec fn issues_debug(s: Seq<IssueModel>) -> Seq<char> {
    "["@ + issue_items(s) + "]"@
}

/// Appends the debug rendering of a kind.
pub fn push_kind_debug(s: &mut String, k: &DynamicKind)
    ensures
        final(s)@ == old(s)@ + kind_debug(*k),
{
    match k {
        DynamicKind::Expression => push_str(s, "Expression"),
        DynamicKind::EventHandler { event } => {
            push_str(s, "EventHandler { event: ");
            push_quoted(s, event.as_str());
            push_str(s, " }");
        },
        DynamicKind::Conditional => push_str(s, "Conditional"),
        DynamicKind::Loop => push_str(s, "Loop"),
    }
    assert(s@ =~= old(s)@ + kind_debug(*k));
}

impl CompatibilityIssue {
    /// Appends the debug rendering of this issue.
    pub fn push_debug(&self, s: &mut String)
        ensures
            final(s)@ == old(s)@ + issue_debug(self@),
    {
        match self {
            CompatibilityIssue::RootElementChanged { old, new } => {
                push_str(s, "RootElementChanged { old: ");
                push_quoted(s, old.as_str());
                push_str(s, ", new: ");
                push_quoted(s, new.as_str());
                push_str(s, " }");
            },
            CompatibilityIssue::DynamicPartCountMismatch { old, new } => {
                push_str(s, "DynamicPartCountMismatch { old: ");
                push_decimal(s, *old as u64);
                push_str(s, ", new: ");
                push_decimal(s, *new as u64);
                push_str(s, " }");
            },
            CompatibilityIssue::DynamicPartTypeMismatch { index, old, new } => {
                push_str(s, "DynamicPartTypeMismatch { index: ");
                push_decimal(s, *index as u64);
                push_str(s, ", old: ");
                push_kind_debug(s, old);
                push_str(s, ", new: ");
                push_kind_debug(s, new);
                push_str(s, " }");
            },
            CompatibilityIssue::StructuralChange { description } => {
                push_str(s, "StructuralChange { description: ");
                push_quoted(s, description.as_str());
                push_str(s, " }");
            },
            CompatibilityIssue::StatePreservationIssue { description } => {
                push_str(s, "StatePreservationIssue { description: ");
                push_quoted(s, description.as_str());
                push_str(s, " }");
            },
        }
        assert(s@ =~= old(s)@ + issue_debug(self@));
    }
}

/// Appends the debug rendering of a list of issues.
pub fn push_issues_debug(s: &mut String, issues: &Vec<CompatibilityIssue>)
    ensures
        final(s)@ == old(s)@ + issues_debug(issues_view(issues@)),
{
    let ghost iv = issues_view(issues@);
    push_str(s, "[");
    let ghost start = s@;
    let mut i: usize = 0;
    while i < issues.len()
        invariant
            i <= issues.len(),
            iv == issues_view(issues@),
            s@ == start + issue_items(iv.subrange(0, i as int)),
        decreases issues.len() - i,
    {
        if i > 0 {
            push_str(s, ", ");
        }
        issues[i].push_debug(s);
        proof {
            let q = iv.subrange(0, i + 1);
            assert(q.drop_last() =~= iv.subrange(0, i as int));
            assert(q.last() == issues@[i as int]@);
            if i == 0 {
                assert(issue_items(iv.subrange(0, 0)) =~= Seq::<char>::empty());
            }
            assert(s@ =~= start + issue_items(q));
        }
        i = i + 1;
    }
    push_str(s, "]");
    assert(iv.subrange(0, iv.len() as int) =~= iv);
    assert(s@ =~= old(s)@ + issues_debug(iv));
}

} // verus!
