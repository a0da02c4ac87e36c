//! Grouping of doc-comment runs in a syntax tree into blocks, and the
//! classification of the node that each block documents.
//!
//! The tree is given as plain values: each node carries its kind, the field
//! under which it stands in its parent, whether it is named, its first and
//! last row, its source text and its children.
use vstd::prelude::*;
use vstd::string::*;

verus! {

broadcast use vstd::std_specs::vec::group_vec_axioms;

/// The kinds of node the scanner tells apart.
#[derive(Debug, Clone, Copy, PartialEq, Eq, Structural)]
pub enum NodeKind {
    Comment,
    Identifier,
    VariableDeclaration,
    AssignmentStatement,
    VariableList,
    ExpressionList,
    TableConstructor,
    Field,
    FunctionDeclaration,
    FunctionDefinition,
    Parameters,
    VarargExpression,
    DotIndexExpression,
    MethodIndexExpression,
    Other,
}

/// The field names of the grammar that the scanner reads.
#[derive(Debug, Clone, Copy, PartialEq, Eq, Structural)]
pub enum FieldRole {
    Name,
    Value,
    Table,
    Field,
    Method,
    Parameters,
    Other,
}

#[derive(Debug)]
pub struct SyntaxNode {
    pub kind: NodeKind,
    pub role: Option<FieldRole>,
    pub named: bool,
    pub start_row: usize,
    pub end_row: usize,
    pub text: String,
    pub children: Vec<SyntaxNode>,
}

#[derive(Debug)]
pub enum Block {
    Table(TableBlock),
    Field(FieldBlock),
    Function(FunctionBlock),
    Free(FreeBlock),
}

/// Doc comments that document no structure.
#[derive(Debug)]
pub struct FreeBlock {
    pub annotations: Vec<String>,
}

/// Doc comments on a table literal bound to a name, with the blocks of the
/// literal's body.
#[derive(Debug)]
pub struct TableBlock {
    pub annotations: Vec<String>,
    pub name: String,
    pub fields: Vec<Block>,
}

/// Doc comments on a field of a table literal.
#[derive(Debug)]
pub struct FieldBlock {
    pub annotations: Vec<String>,
    pub name: Option<FieldName>,
    pub value: String,
}

/// The name of a field of a table literal: a plain identifier, or the
/// source text of a computed key.
#[derive(Debug)]
pub enum FieldName {
    Ident(String),
    Value(String),
}

/// Doc comments on a function definition.
#[derive(Debug)]
pub struct FunctionBlock {
    pub annotations: Vec<String>,
    pub table: Option<String>,
    pub name: String,
    pub params: Vec<FunctionParam>,
    pub is_method: bool,
}

#[derive(Debug)]
pub enum FunctionParam {
    Ident(String),
    Varargs,
}

impl FieldName {
    /// The name as written: the identifier, or the key in brackets.
    pub fn display(&self) -> (r: String)
        ensures
            r@ == match self {
                FieldName::Ident(n) => n@,
                FieldName::Value(v) => "["@ + v@ + "]"@,
            },
    {
        match self {
            FieldName::Ident(n) => n.clone(),
            FieldName::Value(v) => {
                let mut r = String::new();
                r.append("[");
                r.append(v.as_str());
                r.append("]");
                r
            },
        }
    }
}

// ---------------------------------------------------------------------------
// Node access
// ---------------------------------------------------------------------------

/// The first child from `i` on that stands under `role`.
pub open spec fn role_from(s: Seq<SyntaxNode>, i: int, role: FieldRole) -> Option<int>
    decreases s.len() - i,
{
    if 0 <= i < s.len() {
        if s[i].role == Some(role) {
            Some(i)
        } else {
            role_from(s, i + 1, role)
        }
    } else {
        None
    }
}

/// The child that stands under `role`.
pub open spec fn child_by_role(n: SyntaxNode, role: FieldRole) -> Option<SyntaxNode> {
    match role_from(n.children@, 0, role) {
        Some(i) => Some(n.children@[i]),
        None => None,
    }
}

/// The index of the `k`-th named child from `i` on.
pub open spec fn named_from(s: Seq<SyntaxNode>, i: int, k: nat) -> Option<int>
    decreases s.len() - i,
{
    if 0 <= i < s.len() {
        if s[i].named {
            if k == 0 {
                Some(i)
            } else {
                named_from(s, i + 1, (k - 1) as nat)
            }
        } else {
            named_from(s, i + 1, k)
        }
    } else {
        None
    }
}

pub open spec fn named_child(n: SyntaxNode, k: nat) -> Option<SyntaxNode> {
    match named_from(n.children@, 0, k) {
        Some(i) => Some(n.children@[i]),
        None => None,
    }
}

impl SyntaxNode {
    pub fn role_index(&self, role: FieldRole) -> (r: Option<usize>)
        ensures
            match r {
                Some(i) => role_from(self.children@, 0, role) == Some(i as int) && i
                    < self.children@.len(),
                None => role_from(self.children@, 0, role) is None,
            },
    {
        let mut i: usize = 0;
        while i < self.children.len()
            invariant
                i <= self.children@.len(),
                role_from(self.children@, 0, role) == role_from(self.children@, i as int, role),
            decreases self.children@.len() - i,
        {
            match self.children[i].role {
                Some(r) => if r == role {
                    return Some(i);
                },
                None => {},
            }
            i = i + 1;
        }
        None
    }

    pub fn child_by_role(&self, role: FieldRole) -> (r: Option<&SyntaxNode>)
        ensures
            match r {
                Some(c) => child_by_role(*self, role) == Some(*c),
                None => child_by_role(*self, role) is None,
            },
    {
        match self.role_index(role) {
            Some(i) => Some(&self.children[i]),
            None => None,
        }
    }

    pub fn named_child(&self, k: usize) -> (r: Option<&SyntaxNode>)
        ensures
            match r {
                Some(c) => named_child(*self, k as nat) == Some(*c),
                None => named_child(*self, k as nat) is None,
            },
    {
        let mut i: usize = 0;
        let mut left: usize = k;
        while i < self.children.len()
            invariant
                i <= self.children@.len(),
                named_from(self.children@, 0, k as nat) == named_from(
                    self.children@,
                    i as int,
                    left as nat,
                ),
            decreases self.children@.len() - i,
        {
            if self.children[i].named {
                if left == 0 {
                    return Some(&self.children[i]);
                }
                left = left - 1;
            }
            i = i + 1;
        }
        None
    }
}

// ---------------------------------------------------------------------------
// Doc comments
// ---------------------------------------------------------------------------

/// The text of a doc comment without its `---` marker, for a comment that
/// starts with the marker.
pub open spec fn doc_text(t: Seq<char>) -> Option<Seq<char>> {
    if t.len() >= 3 && t[0] == '-' && t[1] == '-' && t[2] == '-' {
        Some(t.subrange(3, t.len() as int))
    } else {
        None
    }
}

pub fn doc_comment_text(t: &str) -> (r: Option<String>)
    ensures
        match r {
            Some(x) => doc_text(t@) == Some(x@),
            None => doc_text(t@) is None,
        },
{
    let n = t.unicode_len();
    if n >= 3 && t.get_char(0) == '-' && t.get_char(1) == '-' && t.get_char(2) == '-' {
        Some(t.substring_char(3, n).to_string())
    } else {
        None
    }
}

pub open spec fn is_doc_comment(n: SyntaxNode) -> bool {
    n.kind == NodeKind::Comment && doc_text(n.text@) is Some
}

/// The end of the run of doc comments that continues the one at `i`: the
/// index of the first sibling after `i` that is not a doc comment on the
/// row after the previous one (or the number of siblings).
pub open spec fn run_end(s: Seq<SyntaxNode>, i: int) -> int
    decreases s.len() - i,
{
    if 0 <= i && i + 1 < s.len() && s[i].end_row + 1 == s[i + 1].start_row && is_doc_comment(
        s[i + 1],
    ) {
        run_end(s, i + 1)
    } else {
        i + 1
    }
}

/// The texts of the doc comments from `i` to `j`, markers removed.
pub open spec fn run_texts(s: Seq<SyntaxNode>, i: int, j: int) -> Seq<Seq<char>>
    decreases j - i,
{
    if i < j {
        run_texts(s, i, j - 1).push(doc_text(s[j - 1].text@)->0)
    } else {
        Seq::empty()
    }
}

/// The node that a run of doc comments ending before `j` documents: the
/// sibling at `j` where it stands on the row after the run and is named.
pub open spec fn documented(s: Seq<SyntaxNode>, j: int) -> Option<int> {
    if 0 < j < s.len() && s[j - 1].end_row + 1 == s[j].start_row && s[j].named {
        Some(j)
    } else {
        None
    }
}

/// Where scanning goes on after the run that ends before `j`: past the
/// documented node where there is one, else at `j`.
pub open spec fn after_run(s: Seq<SyntaxNode>, j: int) -> int {
    if 0 < j < s.len() && s[j - 1].end_row + 1 == s[j].start_row {
        j + 1
    } else {
        j
    }
}

/// A run of doc comments and the index of the sibling it documents.
pub struct CommentRun {
    pub comments: Vec<String>,
    pub node: Option<usize>,
}

pub open spec fn strings_view(v: Seq<String>) -> Seq<Seq<char>> {
    Seq::new(v.len(), |i: int| v[i]@)
}

/// The run of doc comments that starts at sibling `i`, which is a doc
/// comment, and the index at which scanning goes on.
pub fn comment_run(siblings: &Vec<SyntaxNode>, i: usize) -> (r: (CommentRun, usize))
    requires
        i < siblings@.len(),
        is_doc_comment(siblings@[i as int]),
    ensures
        ({
            let j = run_end(siblings@, i as int);
            &&& strings_view(r.0.comments@) == run_texts(siblings@, i as int, j)
            &&& pos_of(r.0.node) == documented(siblings@, j)
            &&& r.1 as int == after_run(siblings@, j)
        }),
        i < r.1 <= siblings@.len(),
{
    let mut comments: Vec<String> = Vec::new();
    let mut k = i;
    loop
        invariant
            i <= k < siblings@.len(),
            run_end(siblings@, i as int) == run_end(siblings@, k as int),
            forall|m: int| i <= m <= k ==> is_doc_comment(#[trigger] siblings@[m]),
            strings_view(comments@) == run_texts(siblings@, i as int, k as int),
        decreases siblings@.len() - k,
    {
        let text = doc_comment_text(siblings[k].text.as_str());
        let ghost c0 = comments@;
        match text {
            Some(t) => comments.push(t),
            None => {},
        }
        proof {
            assert(strings_view(comments@) =~= run_texts(siblings@, i as int, k + 1));
        }
        if k < siblings.len() - 1 && siblings[k].end_row < usize::MAX && siblings[k].end_row + 1
            == siblings[k + 1].start_row {
            let next = &siblings[k + 1];
            let doc = match next.kind {
                NodeKind::Comment => doc_comment_text(next.text.as_str()).is_some(),
                _ => false,
            };
            if !doc {
                let node = if next.named {
                    Some(k + 1)
                } else {
                    None
                };
                return (CommentRun { comments, node }, k + 2);
            }
            k = k + 1;
        } else {
            return (CommentRun { comments, node: None }, k + 1);
        }
    }
}

pub open spec fn pos_of(o: Option<usize>) -> Option<int> {
    match o {
        Some(k) => Some(k as int),
        None => None,
    }
}

// ---------------------------------------------------------------------------
// Classification of the documented node
// ---------------------------------------------------------------------------

/// A variable declaration stands for the assignment it wraps.
pub open spec fn unwrap_decl(n: SyntaxNode) -> Option<SyntaxNode> {
    if n.kind == NodeKind::VariableDeclaration {
        match named_child(n, 0) {
            Some(a) => if a.kind == NodeKind::AssignmentStatement {
                Some(a)
            } else {
                None
            },
            None => None,
        }
    } else {
        Some(n)
    }
}

/// The first target and the first value of an assignment.
pub open spec fn assignment_parts(a: SyntaxNode) -> Option<(SyntaxNode, SyntaxNode)> {
    match (named_child(a, 0), named_child(a, 1)) {
        (Some(vl), Some(el)) => if vl.kind == NodeKind::VariableList && el.kind
            == NodeKind::ExpressionList {
            match (child_by_role(vl, FieldRole::Name), child_by_role(el, FieldRole::Value)) {
                (Some(name), Some(value)) => Some((name, value)),
                _ => None,
            }
        } else {
            None
        },
        _ => None,
    }
}

/// A name bound to a table literal: the name's node and the literal's.
pub open spec fn table_shape(n: SyntaxNode) -> Option<(SyntaxNode, SyntaxNode)> {
    match unwrap_decl(n) {
        Some(m) => if m.kind == NodeKind::AssignmentStatement {
            match assignment_parts(m) {
                Some((name, value)) => if value.kind == NodeKind::TableConstructor {
                    Some((name, value))
                } else {
                    None
                },
                None => None,
            }
        } else if m.kind == NodeKind::Field {
            match (child_by_role(m, FieldRole::Name), child_by_role(m, FieldRole::Value)) {
                (Some(name), Some(value)) => if value.kind == NodeKind::TableConstructor {
                    Some((name, value))
                } else {
                    None
                },
                _ => None,
            }
        } else {
            None
        },
        None => None,
    }
}

/// A field of a table literal: its key's node, if any, and its value's.
pub open spec fn field_shape(n: SyntaxNode) -> Option<(Option<SyntaxNode>, SyntaxNode)> {
    if n.kind == NodeKind::Field {
        match child_by_role(n, FieldRole::Value) {
            Some(value) => Some((child_by_role(n, FieldRole::Name), value)),
            None => None,
        }
    } else {
        None
    }
}

/// A function definition: the node of its owning table, if any, of its
/// name, of its parameter list, and whether it is a method.
pub open spec fn function_shape(n: SyntaxNode) -> Option<
    (Option<SyntaxNode>, SyntaxNode, SyntaxNode, bool),
> {
    match unwrap_decl(n) {
        Some(m) => if m.kind == NodeKind::AssignmentStatement {
            match assignment_parts(m) {
                Some((name, value)) => {
                    let target = if name.kind == NodeKind::DotIndexExpression {
                        match (
                            child_by_role(name, FieldRole::Table),
                            child_by_role(name, FieldRole::Field),
                        ) {
                            (Some(t), Some(f)) => Some((Some(t), f)),
                            _ => None,
                        }
                    } else {
                        Some((None, name))
                    };
                    match target {
                        Some((t, f)) => if value.kind == NodeKind::FunctionDefinition {
                            match child_by_role(value, FieldRole::Parameters) {
                                Some(p) => Some((t, f, p, false)),
                                None => None,
                            }
                        } else {
                            None
                        },
                        None => None,
                    }
                },
                None => None,
            }
        } else if m.kind == NodeKind::FunctionDeclaration {
            match child_by_role(m, FieldRole::Name) {
                Some(name) => {
                    let target = if name.kind == NodeKind::DotIndexExpression {
                        match (
                            child_by_role(name, FieldRole::Table),
                            child_by_role(name, FieldRole::Field),
                        ) {
                            (Some(t), Some(f)) => Some((Some(t), f, false)),
                            _ => None,
                        }
                    } else if name.kind == NodeKind::MethodIndexExpression {
                        match (
                            child_by_role(name, FieldRole::Table),
                            child_by_role(name, FieldRole::Method),
                        ) {
                            (Some(t), Some(f)) => Some((Some(t), f, true)),
                            _ => None,
                        }
                    } else {
                        Some((None, name, false))
                    };
                    match target {
                        Some((t, f, is_method)) => match child_by_role(m, FieldRole::Parameters) {
                            Some(p) => Some((t, f, p, is_method)),
                            None => None,
                        },
                        None => None,
                    }
                },
                None => None,
            }
        } else if m.kind == NodeKind::Field {
            match (child_by_role(m, FieldRole::Name), child_by_role(m, FieldRole::Value)) {
                (Some(name), Some(value)) => if value.kind == NodeKind::FunctionDefinition {
                    match child_by_role(value, FieldRole::Parameters) {
                        Some(p) => Some((None, name, p, false)),
                        None => None,
                    }
                } else {
                    None
                },
                _ => None,
            }
        } else {
            None
        },
        None => None,
    }
}

/// The parameters among nodes from `i` on: identifiers by name (`Some`),
/// varargs as `None`; other nodes are skipped.
pub open spec fn params_from(s: Seq<SyntaxNode>, i: int) -> Seq<Option<Seq<char>>>
    decreases s.len() - i,
{
    if 0 <= i < s.len() {
        let rest = params_from(s, i + 1);
        if s[i].named && s[i].kind == NodeKind::Identifier {
            seq![Some(s[i].text@)] + rest
        } else if s[i].named && s[i].kind == NodeKind::VarargExpression {
            seq![None] + rest
        } else {
            rest
        }
    } else {
        Seq::empty()
    }
}

pub open spec fn param_model(p: FunctionParam) -> Option<Seq<char>> {
    match p {
        FunctionParam::Ident(n) => Some(n@),
        FunctionParam::Varargs => None,
    }
}

pub open spec fn params_model(v: Seq<FunctionParam>) -> Seq<Option<Seq<char>>> {
    Seq::new(v.len(), |i: int| param_model(v[i]))
}

pub open spec fn field_name_model(f: Option<FieldName>) -> Option<(bool, Seq<char>)> {
    match f {
        Some(FieldName::Ident(n)) => Some((true, n@)),
        Some(FieldName::Value(v)) => Some((false, v@)),
        None => None,
    }
}

pub open spec fn node_text(n: Option<SyntaxNode>) -> Option<Seq<char>> {
    match n {
        Some(x) => Some(x.text@),
        None => None,
    }
}

pub fn copy_strings(v: &Vec<String>) -> (r: Vec<String>)
    ensures
        r@ == v@,
{
    let mut r: Vec<String> = Vec::new();
    let mut i: usize = 0;
    while i < v.len()
        invariant
            i <= v@.len(),
            r@ == v@.subrange(0, i as int),
        decreases v@.len() - i,
    {
        r.push(v[i].clone());
        i = i + 1;
        proof {
            assert(r@ =~= v@.subrange(0, i as int));
        }
    }
    proof {
        assert(r@ =~= v@);
    }
    r
}

fn unwrap_decl_exec(node: &SyntaxNode) -> (r: Option<&SyntaxNode>)
    ensures
        match r {
            Some(m) => unwrap_decl(*node) == Some(*m),
            None => unwrap_decl(*node) is None,
        },
{
    match node.kind {
        NodeKind::VariableDeclaration => match node.named_child(0) {
            Some(a) => match a.kind {
                NodeKind::AssignmentStatement => Some(a),
                _ => None,
            },
            None => None,
        },
        _ => Some(node),
    }
}

fn assignment_parts_exec(a: &SyntaxNode) -> (r: Option<(&SyntaxNode, &SyntaxNode)>)
    ensures
        match r {
            Some((name, value)) => assignment_parts(*a) == Some((*name, *value)),
            None => assignment_parts(*a) is None,
        },
{
    let vl = match a.named_child(0) {
        Some(x) => x,
        None => return None,
    };
    let el = match a.named_child(1) {
        Some(x) => x,
        None => return None,
    };
    match (vl.kind, el.kind) {
        (NodeKind::VariableList, NodeKind::ExpressionList) => {},
        _ => return None,
    }
    match (vl.child_by_role(FieldRole::Name), el.child_by_role(FieldRole::Value)) {
        (Some(name), Some(value)) => Some((name, value)),
        _ => None,
    }
}

fn table_shape_exec(node: &SyntaxNode) -> (r: Option<(&SyntaxNode, &SyntaxNode)>)
    ensures
        match r {
            Some((name, value)) => table_shape(*node) == Some((*name, *value)),
            None => table_shape(*node) is None,
        },
{
    let m = match unwrap_decl_exec(node) {
        Some(m) => m,
        None => return None,
    };
    let parts = match m.kind {
        NodeKind::AssignmentStatement => assignment_parts_exec(m),
        NodeKind::Field => match (m.child_by_role(FieldRole::Name), m.child_by_role(
            FieldRole::Value,
        )) {
            (Some(name), Some(value)) => Some((name, value)),
            _ => None,
        },
        _ => None,
    };
    match parts {
        Some((name, value)) => match value.kind {
            NodeKind::TableConstructor => Some((name, value)),
            _ => None,
        },
        None => None,
    }
}

/// A table block, where the node binds a name to a table literal; the
/// blocks of the literal's body are scanned with every field a candidate.
pub fn parse_table_block(node: &SyntaxNode, annotations: &Vec<String>) -> (r: Option<TableBlock>)
    ensures
        match table_shape(*node) {
            Some((name, value)) => r matches Some(b) && b.name@ == name.text@ && b.annotations@
                == annotations@ && blocks_summary(b.fields@) == scan(value.children@, 0, true),
            None => r is None,
        },
    decreases node, 1int,
{
    let (name, value) = match table_shape_exec(node) {
        Some(p) => p,
        None => return None,
    };
    proof {
        lemma_table_shape_decreases(*node);
    }
    let fields = parse_blocks(&value.children, true);
    Some(TableBlock { annotations: copy_strings(annotations), name: name.text.clone(), fields })
}

/// A field block, where the node is a field of a table literal with a value.
pub fn parse_field_block(node: &SyntaxNode, annotations: &Vec<String>) -> (r: Option<FieldBlock>)
    ensures
        match field_shape(*node) {
            Some((name, value)) => r matches Some(b) && b.value@ == value.text@ && b.annotations@
                == annotations@ && field_name_model(b.name) == match name {
                Some(n) => Some((n.kind == NodeKind::Identifier, n.text@)),
                None => None,
            },
            None => r is None,
        },
{
    match node.kind {
        NodeKind::Field => {},
        _ => return None,
    }
    let value = match node.child_by_role(FieldRole::Value) {
        Some(v) => v,
        None => return None,
    };
    let name = match node.child_by_role(FieldRole::Name) {
        Some(n) => match n.kind {
            NodeKind::Identifier => Some(FieldName::Ident(n.text.clone())),
            _ => Some(FieldName::Value(n.text.clone())),
        },
        None => None,
    };
    Some(FieldBlock { annotations: copy_strings(annotations), name, value: value.text.clone() })
}

fn dotted_target(name: &SyntaxNode) -> (r: Option<(Option<&SyntaxNode>, &SyntaxNode, bool)>)
    ensures
        match r {
            Some((t, f, m)) => if name.kind == NodeKind::DotIndexExpression {
                (child_by_role(*name, FieldRole::Table), child_by_role(*name, FieldRole::Field)) == (
                Some(*t->0), Some(*f)) && t is Some && !m
            } else if name.kind == NodeKind::MethodIndexExpression {
                (child_by_role(*name, FieldRole::Table), child_by_role(*name, FieldRole::Method))
                    == (Some(*t->0), Some(*f)) && t is Some && m
            } else {
                t is None && *f == *name && !m
            },
            None => if name.kind == NodeKind::DotIndexExpression {
                child_by_role(*name, FieldRole::Table) is None || child_by_role(
                    *name,
                    FieldRole::Field,
                ) is None
            } else {
                name.kind == NodeKind::MethodIndexExpression && (child_by_role(
                    *name,
                    FieldRole::Table,
                ) is None || child_by_role(*name, FieldRole::Method) is None)
            },
        },
{
    match name.kind {
        NodeKind::DotIndexExpression => match (
            name.child_by_role(FieldRole::Table),
            name.child_by_role(FieldRole::Field),
        ) {
            (Some(t), Some(f)) => Some((Some(t), f, false)),
            _ => None,
        },
        NodeKind::MethodIndexExpression => match (
            name.child_by_role(FieldRole::Table),
            name.child_by_role(FieldRole::Method),
        ) {
            (Some(t), Some(f)) => Some((Some(t), f, true)),
            _ => None,
        },
        _ => Some((None, name, false)),
    }
}

fn function_shape_exec(node: &SyntaxNode) -> (r: Option<
    (Option<&SyntaxNode>, &SyntaxNode, &SyntaxNode, bool),
>)
    ensures
        match r {
            Some((t, f, p, m)) => function_shape(*node) == Some(
                (
                    match t {
                        Some(x) => Some(*x),
                        None => None,
                    },
                    *f,
                    *p,
                    m,
                ),
            ),
            None => function_shape(*node) is None,
        },
{
    let m = match unwrap_decl_exec(node) {
        Some(m) => m,
        None => return None,
    };
    match m.kind {
        NodeKind::AssignmentStatement => {
            let (name, value) = match assignment_parts_exec(m) {
                Some(p) => p,
                None => return None,
            };
            let (t, f) = match name.kind {
                NodeKind::DotIndexExpression => match dotted_target(name) {
                    Some((t, f, _)) => (t, f),
                    None => return None,
                },
                _ => (None, name),
            };
            match value.kind {
                NodeKind::FunctionDefinition => {},
                _ => return None,
            }
            match value.child_by_role(FieldRole::Parameters) {
                Some(p) => Some((t, f, p, false)),
                None => None,
            }
        },
        NodeKind::FunctionDeclaration => {
            let name = match m.child_by_role(FieldRole::Name) {
                Some(n) => n,
                None => return None,
            };
            let (t, f, is_method) = match dotted_target(name) {
                Some(x) => x,
                None => return None,
            };
            match m.child_by_role(FieldRole::Parameters) {
                Some(p) => Some((t, f, p, is_method)),
                None => None,
            }
        },
        NodeKind::Field => {
            let (name, value) = match (m.child_by_role(FieldRole::Name), m.child_by_role(
                FieldRole::Value,
            )) {
                (Some(n), Some(v)) => (n, v),
                _ => return None,
            };
            match value.kind {
                NodeKind::FunctionDefinition => {},
                _ => return None,
            }
            match value.child_by_role(FieldRole::Parameters) {
                Some(p) => Some((None, name, p, false)),
                None => None,
            }
        },
        _ => None,
    }
}

fn params_exec(p: &SyntaxNode) -> (r: Vec<FunctionParam>)
    ensures
        params_model(r@) == params_from(p.children@, 0),
{
    let mut r: Vec<FunctionParam> = Vec::new();
    let mut i: usize = 0;
    while i < p.children.len()
        invariant
            i <= p.children@.len(),
            params_model(r@) + params_from(p.children@, i as int) == params_from(p.children@, 0),
        decreases p.children@.len() - i,
    {
        let c = &p.children[i];
        let ghost r0 = r@;
        if c.named {
            match c.kind {
                NodeKind::Identifier => r.push(FunctionParam::Ident(c.text.clone())),
                NodeKind::VarargExpression => r.push(FunctionParam::Varargs),
                _ => {},
            }
        }
        proof {
            assert(params_model(r@) + params_from(p.children@, i + 1) =~= params_model(r0)
                + params_from(p.children@, i as int));
        }
        i = i + 1;
    }
    proof {
        assert(params_model(r@) + params_from(p.children@, i as int) =~= params_model(r@));
    }
    r
}

/// A function block, where the node defines a function.
pub fn parse_function_block(node: &SyntaxNode, annotations: &Vec<String>) -> (r: Option<
    FunctionBlock,
>)
    ensures
        match function_shape(*node) {
            Some((t, name, p, is_method)) => r matches Some(b) && b.name@ == name.text@ && opt_view(
                b.table,
            ) == node_text(t) && params_model(b.params@) == params_from(p.children@, 0)
                && b.is_method == is_method && b.annotations@ == annotations@,
            None => r is None,
        },
{
    match function_shape_exec(node) {
        Some((t, f, p, is_method)) => Some(
            FunctionBlock {
                annotations: copy_strings(annotations),
                table: match t {
                    Some(x) => Some(x.text.clone()),
                    None => None,
                },
                name: f.text.clone(),
                params: params_exec(p),
                is_method,
            },
        ),
        None => None,
    }
}

pub open spec fn opt_view(o: Option<String>) -> Option<Seq<char>> {
    match o {
        Some(s) => Some(s@),
        None => None,
    }
}

pub proof fn lemma_child_decreases(p: SyntaxNode, c: SyntaxNode)
    requires
        exists|i: int| 0 <= i < p.children@.len() && p.children@[i] == c,
    ensures
        decreases_to!(p => c),
{
    let i = choose|i: int| 0 <= i < p.children@.len() && p.children@[i] == c;
    assert(decreases_to!(p => p.children));
    assert(decreases_to!(p.children => p.children@[i]));
}

pub proof fn lemma_role_child(n: SyntaxNode, i: int, role: FieldRole)
    requires
        0 <= i,
        role_from(n.children@, i, role) is Some,
    ensures
        0 <= role_from(n.children@, i, role)->0 < n.children@.len(),
    decreases n.children@.len() - i,
{
    if i < n.children@.len() && n.children@[i].role != Some(role) {
        lemma_role_child(n, i + 1, role);
    }
}

pub proof fn lemma_named_child(n: SyntaxNode, i: int, k: nat)
    requires
        0 <= i,
        named_from(n.children@, i, k) is Some,
    ensures
        0 <= named_from(n.children@, i, k)->0 < n.children@.len(),
    decreases n.children@.len() - i,
{
    if i < n.children@.len() {
        if n.children@[i].named {
            if k != 0 {
                lemma_named_child(n, i + 1, (k - 1) as nat);
            }
        } else {
            lemma_named_child(n, i + 1, k);
        }
    }
}

/// The table literal of a table block lies below its node.
pub proof fn lemma_table_shape_decreases(n: SyntaxNode)
    requires
        table_shape(n) is Some,
    ensures
        decreases_to!(n => (table_shape(n)->0).1),
{
    let value = (table_shape(n)->0).1;
    let m = unwrap_decl(n)->0;
    if n.kind == NodeKind::VariableDeclaration {
        lemma_named_child(n, 0, 0);
        lemma_child_decreases(n, m);
    }
    if m.kind == NodeKind::AssignmentStatement {
        let vl = named_child(m, 0)->0;
        let el = named_child(m, 1)->0;
        lemma_named_child(m, 0, 1);
        lemma_child_decreases(m, el);
        lemma_role_child(el, 0, FieldRole::Value);
        lemma_child_decreases(el, value);
    } else {
        lemma_role_child(m, 0, FieldRole::Value);
        lemma_child_decreases(m, value);
    }
}

// ---------------------------------------------------------------------------
// The blocks of a tree
// ---------------------------------------------------------------------------

/// What a block holds, as plain values.
pub enum BlockSummary {
    Table(Seq<Seq<char>>, Seq<char>, Seq<BlockSummary>),
    Field(Seq<Seq<char>>, Option<(bool, Seq<char>)>, Seq<char>),
    Function(Seq<Seq<char>>, Option<Seq<char>>, Seq<char>, Seq<Option<Seq<char>>>, bool),
    Free(Seq<Seq<char>>),
}

pub open spec fn block_summary(b: Block) -> BlockSummary
    decreases b,
{
    match b {
        Block::Table(t) => BlockSummary::Table(
            strings_view(t.annotations@),
            t.name@,
            blocks_summary(t.fields@),
        ),
        Block::Field(f) => BlockSummary::Field(
            strings_view(f.annotations@),
            field_name_model(f.name),
            f.value@,
        ),
        Block::Function(f) => BlockSummary::Function(
            strings_view(f.annotations@),
            opt_view(f.table),
            f.name@,
            params_model(f.params@),
            f.is_method,
        ),
        Block::Free(f) => BlockSummary::Free(strings_view(f.annotations@)),
    }
}

pub open spec fn blocks_summary(s: Seq<Block>) -> Seq<BlockSummary>
    decreases s,
{
    if s.len() == 0 {
        Seq::empty()
    } else {
        blocks_summary(s.subrange(0, s.len() - 1)).push(block_summary(s[s.len() - 1]))
    }
}

/// The blocks of the siblings from `i` on: a run of doc comments gives the
/// blocks of the node it documents, or a loose block; with `all`, any other
/// node that is not a comment gives its blocks without comments; the rest
/// give the blocks of their children.
pub open spec fn scan(s: Seq<SyntaxNode>, i: int, all: bool) -> Seq<BlockSummary>
    decreases s, s.len() - i,
{
    if 0 <= i < s.len() {
        if is_doc_comment(s[i]) {
            let j = run_end(s, i);
            let texts = run_texts(s, i, j);
            let here = match documented(s, j) {
                Some(d) => classify_spec(s[d], texts),
                None => seq![BlockSummary::Free(texts)],
            };
            let next = after_run(s, j);
            if i < next <= s.len() {
                here + scan(s, next, all)
            } else {
                here
            }
        } else if all && s[i].kind != NodeKind::Comment {
            classify_spec(s[i], Seq::empty()) + scan(s, i + 1, all)
        } else {
            proof {
                assert(decreases_to!(s => s[i]));
                assert(decreases_to!(s[i] => s[i].children));
            }
            scan(s[i].children@, 0, false) + scan(s, i + 1, all)
        }
    } else {
        Seq::empty()
    }
}

/// The blocks of a node that the comments document.
pub open spec fn classify_spec(n: SyntaxNode, comments: Seq<Seq<char>>) -> Seq<BlockSummary>
    decreases n, 0int,
{
    match table_shape(n) {
        Some((name, value)) => {
            proof {
                lemma_table_shape_decreases(n);
                assert(decreases_to!(value => value.children));
            }
            seq![BlockSummary::Table(comments, name.text@, scan(value.children@, 0, true))]
        },
        None => match function_shape(n) {
            Some((t, name, p, is_method)) => seq![
                BlockSummary::Function(
                    comments,
                    node_text(t),
                    name.text@,
                    params_from(p.children@, 0),
                    is_method,
                ),
            ] + scan(n.children@, 0, false),
            None => match field_shape(n) {
                Some((name, value)) => seq![
                    BlockSummary::Field(
                        comments,
                        match name {
                            Some(x) => Some((x.kind == NodeKind::Identifier, x.text@)),
                            None => None,
                        },
                        value.text@,
                    ),
                ],
                None => (if comments.len() > 0 {
                    seq![BlockSummary::Free(comments)]
                } else {
                    Seq::empty()
                }) + scan(n.children@, 0, false),
            },
        },
    }
}

pub proof fn lemma_blocks_summary_push(v: Seq<Block>, b: Block)
    ensures
        blocks_summary(v.push(b)) == blocks_summary(v).push(block_summary(b)),
{
    assert(v.push(b).subrange(0, v.len() as int) =~= v);
}

pub proof fn lemma_blocks_summary_append(v: Seq<Block>, w: Seq<Block>)
    ensures
        blocks_summary(v + w) == blocks_summary(v) + blocks_summary(w),
    decreases w.len(),
{
    if w.len() == 0 {
        assert(v + w =~= v);
        assert(blocks_summary(v) + blocks_summary(w) =~= blocks_summary(v));
    } else {
        let w0 = w.subrange(0, w.len() - 1);
        lemma_blocks_summary_append(v, w0);
        assert((v + w).subrange(0, (v + w).len() - 1) =~= v + w0);
        assert(blocks_summary(v) + blocks_summary(w) =~= (blocks_summary(v) + blocks_summary(w0)).push(
            block_summary(w[w.len() - 1]),
        ));
    }
}

fn is_doc_comment_exec(n: &SyntaxNode) -> (r: bool)
    ensures
        r == is_doc_comment(*n),
{
    match n.kind {
        NodeKind::Comment => doc_comment_text(n.text.as_str()).is_some(),
        _ => false,
    }
}

/// The blocks of a node that some doc comments (possibly none) document:
/// a table, a function (whose body is scanned too), a field, or else loose
/// comments, where there are any, followed by the blocks of its children.
fn classify(node: &SyntaxNode, comments: Vec<String>, blocks: &mut Vec<Block>)
    ensures
        blocks_summary(final(blocks)@) == blocks_summary(old(blocks)@) + classify_spec(
            *node,
            strings_view(comments@),
        ),
    decreases node, 2int,
{
    let ghost b0 = blocks@;
    let ghost c = strings_view(comments@);
    if let Some(t) = parse_table_block(node, &comments) {
        proof {
            lemma_blocks_summary_push(blocks@, Block::Table(t));
        }
        blocks.push(Block::Table(t));
        proof {
            assert(blocks_summary(blocks@) =~= blocks_summary(b0) + classify_spec(*node, c));
        }
    } else if let Some(f) = parse_function_block(node, &comments) {
        proof {
            lemma_blocks_summary_push(blocks@, Block::Function(f));
        }
        blocks.push(Block::Function(f));
        let ghost b1 = blocks@;
        proof {
            assert(decreases_to!(*node => node.children));
        }
        let mut sub = parse_blocks(&node.children, false);
        proof {
            lemma_blocks_summary_append(b1, sub@);
        }
        blocks.append(&mut sub);
        proof {
            assert(blocks_summary(blocks@) =~= blocks_summary(b0) + classify_spec(*node, c));
        }
    } else if let Some(f) = parse_field_block(node, &comments) {
        proof {
            lemma_blocks_summary_push(blocks@, Block::Field(f));
        }
        blocks.push(Block::Field(f));
        proof {
            assert(blocks_summary(blocks@) =~= blocks_summary(b0) + classify_spec(*node, c));
        }
    } else {
        if comments.len() > 0 {
            let free = Block::Free(FreeBlock { annotations: comments });
            proof {
                lemma_blocks_summary_push(blocks@, free);
            }
            blocks.push(free);
        }
        let ghost b1 = blocks@;
        proof {
            assert(decreases_to!(*node => node.children));
        }
        let mut sub = parse_blocks(&node.children, false);
        proof {
            lemma_blocks_summary_append(b1, sub@);
        }
        blocks.append(&mut sub);
        proof {
            assert(blocks_summary(blocks@) =~= blocks_summary(b0) + classify_spec(*node, c));
        }
    }
}

/// The blocks of a list of sibling nodes, depth first. Each run of doc
/// comments documents the node on the row right after it; with `parse_all`
/// every other node is a candidate too, as the fields of a table literal
/// are.
pub fn parse_blocks(siblings: &Vec<SyntaxNode>, parse_all: bool) -> (r: Vec<Block>)
    ensures
        blocks_summary(r@) == scan(siblings@, 0, parse_all),
    decreases siblings, 0int,
{
    let mut blocks: Vec<Block> = Vec::new();
    let mut i: usize = 0;
    proof {
        assert(blocks_summary(blocks@) + scan(siblings@, 0, parse_all) =~= scan(
            siblings@,
            0,
            parse_all,
        ));
    }
    while i < siblings.len()
        invariant
            i <= siblings@.len(),
            blocks_summary(blocks@) + scan(siblings@, i as int, parse_all) == scan(
                siblings@,
                0,
                parse_all,
            ),
        decreases siblings@.len() - i,
    {
        let node = &siblings[i];
        let ghost b0 = blocks@;
        if is_doc_comment_exec(node) {
            let (run, next) = comment_run(siblings, i);
            match run.node {
                Some(j) => {
                    proof {
                        assert(decreases_to!(*siblings => siblings[j as int]));
                    }
                    classify(&siblings[j], run.comments, &mut blocks);
                },
                None => {
                    let free = Block::Free(FreeBlock { annotations: run.comments });
                    proof {
                        lemma_blocks_summary_push(blocks@, free);
                    }
                    blocks.push(free);
                },
            }
            proof {
                assert(blocks_summary(blocks@) + scan(siblings@, next as int, parse_all) =~= blocks_summary(b0)
                    + scan(siblings@, i as int, parse_all));
            }
            i = next;
        } else {
            let comment = match node.kind {
                NodeKind::Comment => true,
                _ => false,
            };
            if parse_all && !comment {
                proof {
                    assert(decreases_to!(*siblings => siblings[i as int]));
                }
                let empty: Vec<String> = Vec::new();
                proof {
                    assert(strings_view(empty@) =~= Seq::<Seq<char>>::empty());
                }
                classify(node, empty, &mut blocks);
            } else {
                proof {
                    assert(decreases_to!(*siblings => siblings[i as int]));
                    assert(decreases_to!(siblings[i as int] => siblings[i as int].children));
                }
                let mut sub = parse_blocks(&node.children, false);
                proof {
                    lemma_blocks_summary_append(blocks@, sub@);
                }
                blocks.append(&mut sub);
            }
            proof {
                assert(blocks_summary(blocks@) + scan(siblings@, i + 1, parse_all) =~= blocks_summary(b0)
                    + scan(siblings@, i as int, parse_all));
            }
            i = i + 1;
        }
    }
    proof {
        assert(blocks_summary(blocks@) =~= blocks_summary(blocks@) + scan(siblings@, i as int, parse_all));
    }
    blocks
}

} // verus!
