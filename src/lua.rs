//! Lua source text to blocks: tree-sitter's Lua grammar gives the syntax
//! tree, which is copied into plain values and scanned.
use vstd::prelude::*;
use crate::grammar::{p_text_is, Source};
use crate::scanner::{blocks_summary, parse_blocks, scan, Block, FieldRole, NodeKind, SyntaxNode};

verus! {

/// Declares tree-sitter's cursor, which the copy of a tree walks.
#[verifier::external_type_specification]
#[verifier::external_body]
pub struct ExTreeCursor<'a>(tree_sitter::TreeCursor<'a>);

/// A node of a tree as tree-sitter gives it: its kind and the field it
/// stands under in its parent are names of the Lua grammar.
#[derive(Debug)]
pub struct RawNode {
    pub kind: String,
    pub field: Option<String>,
    pub named: bool,
    pub start_row: usize,
    pub end_row: usize,
    pub text: String,
    pub children: Vec<RawNode>,
}

/// The syntax tree that tree-sitter, with the Lua grammar of
/// tree-sitter-lua, gives for a text.
pub uninterp spec fn lua_syntax(text: Seq<char>) -> RawNode;

/// The kind of node that a kind name of the Lua grammar stands for.
pub open spec fn kind_named(k: Seq<char>) -> NodeKind {
    if k == "comment"@ {
        NodeKind::Comment
    } else if k == "identifier"@ {
        NodeKind::Identifier
    } else if k == "variable_declaration"@ {
        NodeKind::VariableDeclaration
    } else if k == "assignment_statement"@ {
        NodeKind::AssignmentStatement
    } else if k == "variable_list"@ {
        NodeKind::VariableList
    } else if k == "expression_list"@ {
        NodeKind::ExpressionList
    } else if k == "table_constructor"@ {
        NodeKind::TableConstructor
    } else if k == "field"@ {
        NodeKind::Field
    } else if k == "function_declaration"@ {
        NodeKind::FunctionDeclaration
    } else if k == "function_definition"@ {
        NodeKind::FunctionDefinition
    } else if k == "parameters"@ {
        NodeKind::Parameters
    } else if k == "vararg_expression"@ {
        NodeKind::VarargExpression
    } else if k == "dot_index_expression"@ {
        NodeKind::DotIndexExpression
    } else if k == "method_index_expression"@ {
        NodeKind::MethodIndexExpression
    } else {
        NodeKind::Other
    }
}

/// The role that a field name of the Lua grammar stands for.
pub open spec fn role_named(f: Seq<char>) -> FieldRole {
    if f == "name"@ {
        FieldRole::Name
    } else if f == "value"@ {
        FieldRole::Value
    } else if f == "table"@ {
        FieldRole::Table
    } else if f == "field"@ {
        FieldRole::Field
    } else if f == "method"@ {
        FieldRole::Method
    } else if f == "parameters"@ {
        FieldRole::Parameters
    } else {
        FieldRole::Other
    }
}

fn text_is(t: &str, w: &str) -> (r: bool)
    ensures
        r == (t@ == w@),
{
    let src = Source::new(t);
    proof {
        assert(src.s().subrange(0, src.s().len() as int) =~= t@);
    }
    p_text_is(&src, 0, src.chars.len(), w)
}

pub fn node_kind(k: &str) -> (r: NodeKind)
    ensures
        r == kind_named(k@),
{
    if text_is(k, "comment") {
        NodeKind::Comment
    } else if text_is(k, "identifier") {
        NodeKind::Identifier
    } else if text_is(k, "variable_declaration") {
        NodeKind::VariableDeclaration
    } else if text_is(k, "assignment_statement") {
        NodeKind::AssignmentStatement
    } else if text_is(k, "variable_list") {
        NodeKind::VariableList
    } else if text_is(k, "expression_list") {
        NodeKind::ExpressionList
    } else if text_is(k, "table_constructor") {
        NodeKind::TableConstructor
    } else if text_is(k, "field") {
        NodeKind::Field
    } else if text_is(k, "function_declaration") {
        NodeKind::FunctionDeclaration
    } else if text_is(k, "function_definition") {
        NodeKind::FunctionDefinition
    } else if text_is(k, "parameters") {
        NodeKind::Parameters
    } else if text_is(k, "vararg_expression") {
        NodeKind::VarargExpression
    } else if text_is(k, "dot_index_expression") {
        NodeKind::DotIndexExpression
    } else if text_is(k, "method_index_expression") {
        NodeKind::MethodIndexExpression
    } else {
        NodeKind::Other
    }
}

pub fn field_role(f: &str) -> (r: FieldRole)
    ensures
        r == role_named(f@),
{
    if text_is(f, "name") {
        FieldRole::Name
    } else if text_is(f, "value") {
        FieldRole::Value
    } else if text_is(f, "table") {
        FieldRole::Table
    } else if text_is(f, "field") {
        FieldRole::Field
    } else if text_is(f, "method") {
        FieldRole::Method
    } else if text_is(f, "parameters") {
        FieldRole::Parameters
    } else {
        FieldRole::Other
    }
}

pub open spec fn role_of(f: Option<String>) -> Option<FieldRole> {
    match f {
        Some(x) => Some(role_named(x@)),
        None => None,
    }
}

/// `n` is the raw node `r` with its kind and field names read as the
/// scanner's kinds and roles, at every depth.
pub open spec fn converts(r: RawNode, n: SyntaxNode) -> bool
    decreases r, 1int,
{
    &&& n.kind == kind_named(r.kind@)
    &&& n.role == role_of(r.field)
    &&& n.named == r.named
    &&& n.start_row == r.start_row
    &&& n.end_row == r.end_row
    &&& n.text@ == r.text@
    &&& converts_all(r.children@, n.children@)
}

pub open spec fn converts_all(rs: Seq<RawNode>, ns: Seq<SyntaxNode>) -> bool
    decreases rs, 0int,
{
    &&& rs.len() == ns.len()
    &&& rs.len() > 0 ==> converts_all(
        rs.subrange(0, rs.len() - 1),
        ns.subrange(0, ns.len() - 1),
    ) && converts(rs[rs.len() - 1], ns[ns.len() - 1])
}

/// The raw tree with its kind and field names read.
pub fn to_syntax(r: &RawNode) -> (n: SyntaxNode)
    ensures
        converts(*r, n),
    decreases r, 1int,
{
    let mut children: Vec<SyntaxNode> = Vec::new();
    let mut i: usize = 0;
    proof {
        assert(r.children@.subrange(0, 0) =~= Seq::<RawNode>::empty());
    }
    while i < r.children.len()
        invariant
            i <= r.children@.len(),
            converts_all(r.children@.subrange(0, i as int), children@),
        decreases r.children@.len() - i,
    {
        proof {
            assert(decreases_to!(*r => r.children));
            assert(decreases_to!(r.children => r.children[i as int]));
        }
        let c = to_syntax(&r.children[i]);
        let ghost c0 = children@;
        children.push(c);
        proof {
            let rs = r.children@.subrange(0, i + 1);
            assert(rs.subrange(0, i as int) =~= r.children@.subrange(0, i as int));
            assert(children@.subrange(0, i as int) =~= c0);
        }
        i = i + 1;
    }
    proof {
        assert(r.children@.subrange(0, i as int) =~= r.children@);
    }
    let role = match &r.field {
        Some(f) => Some(field_role(f.as_str())),
        None => None,
    };
    SyntaxNode {
        kind: node_kind(r.kind.as_str()),
        role,
        named: r.named,
        start_row: r.start_row,
        end_row: r.end_row,
        text: r.text.clone(),
        children,
    }
}

/// Relies on tree_sitter::Parser::parse with tree_sitter_lua::language():
/// the tree depends on the text alone, and with the language set and no
/// timeout or cancellation flag, `parse` always gives one (tree-sitter-lua's
/// grammar has the ABI version that this tree-sitter accepts).
#[verifier::external_body]
fn lua_tree(text: &str) -> (r: Option<RawNode>)
    ensures
        r == Some(lua_syntax(text@)),
{
    let mut parser = tree_sitter::Parser::new();
    parser.set_language(&tree_sitter_lua::language()).ok()?;
    let tree = parser.parse(text, None)?;
    let mut cursor = tree.walk();
    Some(raw_node(&mut cursor, text.as_bytes()))
}

/// Relies on tree_sitter::TreeCursor: copies the node under the cursor and
/// all below it, with its kind and field name, rows and text, into plain
/// values.
#[verifier::external_body]
fn raw_node(cursor: &mut tree_sitter::TreeCursor, source: &[u8]) -> (r: RawNode) {
    let node = cursor.node();
    let mut children = Vec::new();
    if cursor.goto_first_child() {
        children.push(raw_node(cursor, source));
        while cursor.goto_next_sibling() {
            children.push(raw_node(cursor, source));
        }
        cursor.goto_parent();
    }
    let field = cursor.field_name().map(|f| f.to_string());
    let text = node.utf8_text(source).unwrap_or_default().to_string();
    RawNode { kind: node.kind().to_string(), field, named: node.is_named(), start_row: node.start_position().row, end_row: node.end_position().row, text, children }
}

/// The blocks of a Lua source text, scanned from the root of its syntax
/// tree.
pub fn parse_source(text: &str) -> (r: Vec<Block>)
    ensures
        exists|n: SyntaxNode|
            converts(lua_syntax(text@), n) && blocks_summary(r@) == scan(seq![n], 0, false),
{
    let raw = match lua_tree(text) {
        Some(raw) => raw,
        None => return Vec::new(),
    };
    let root = to_syntax(&raw);
    let nodes = vec![root];
    proof {
        assert(nodes@ =~= seq![root]);
    }
    let r = parse_blocks(&nodes, false);
    proof {
        assert(converts(lua_syntax(text@), root) && blocks_summary(r@) == scan(seq![root], 0, false));
    }
    r
}

} // verus!
