use lcat::lua::{field_role, node_kind, parse_source, to_syntax, RawNode};
use lcat::processor::Processor;
use lcat::scanner::{Block, FieldRole, NodeKind};
use lcat::types::{Type, TypeInner};

fn process(source: &str) -> Processor {
    let blocks = parse_source(source);
    let mut p = Processor::new();
    p.process_blocks(blocks);
    p
}

#[test]
fn end_to_end_from_source() {
    let p = process(
        "---@class Point\n---@field x integer\n---@field y integer\nlocal Point = {}\n\n---@param self Point\n---@return integer\nfunction Point.sum(self) end\n",
    );
    assert_eq!(p.classes.len(), 1);
    assert_eq!(p.classes[0].name, "Point");
    assert_eq!(p.classes[0].lsp_fields.len(), 2);
    assert_eq!(p.classes[0].lsp_fields[0].ident_type, Type::string_literal("x"));
    assert_eq!(p.classes[0].lsp_fields[1].ty, Type::new(TypeInner::Integer));
    assert_eq!(p.functions.len(), 1);
    let f = &p.functions[0];
    assert_eq!(f.name, "sum");
    assert_eq!(f.table.as_deref(), Some("Point"));
    assert_eq!(f.params.len(), 1);
    assert_eq!(f.params[0].name, "self");
    assert_eq!(f.params[0].ty, Type::user_defined("Point"));
    assert_eq!(f.returns.len(), 1);
    assert_eq!(f.returns[0].ty, Type::new(TypeInner::Integer));
}

#[test]
fn table_to_class_from_source() {
    let p = process("---@class Foo\nM = { }\n\n---Bar.\nfunction M.bar() end\n");
    assert_eq!(p.functions.len(), 1);
    assert_eq!(p.functions[0].name, "bar");
    assert_eq!(p.functions[0].table.as_deref(), Some("Foo"));
}

#[test]
fn fields_and_methods_from_source() {
    let p = process(
        "---@class Obj\n---@field x integer\nlocal Obj = {\n  ---the x\n  x = 5,\n}\n\n---Doubles.\nfunction Obj:double(n, ...) end\n",
    );
    assert_eq!(p.classes.len(), 1);
    let fields = p.classes[0].fields();
    assert_eq!(fields.len(), 1);
    assert_eq!(fields[0].ident_type, Type::string_literal("x"));
    assert_eq!(fields[0].ty, Some(Type::new(TypeInner::Integer)));
    assert_eq!(fields[0].value.as_deref(), Some("5"));
    assert_eq!(fields[0].description.as_deref(), Some("the x"));
    assert_eq!(p.functions.len(), 1);
    assert_eq!(p.functions[0].name, "double");
    assert!(p.functions[0].is_method);
    assert_eq!(p.functions[0].description.as_deref(), Some("Doubles."));
}

#[test]
fn undocumented_function_gives_no_block() {
    let p = process("---@class Foo\nM = { }\n\nfunction M.bar() end\n");
    assert_eq!(p.classes.len(), 1);
    assert!(p.functions.is_empty());
}

#[test]
fn nodoc_from_source() {
    let p = process("---@lcat nodoc\n---@class Hidden\nlocal Hidden = {}\n");
    assert!(p.classes.is_empty());
}

#[test]
fn blocks_from_source() {
    let blocks = parse_source("---loose words\n\nlocal x = 1\n");
    assert_eq!(blocks.len(), 1);
    match &blocks[0] {
        Block::Free(f) => assert_eq!(f.annotations, vec!["loose words".to_string()]),
        other => panic!("not a loose block: {other:?}"),
    }
}

#[test]
fn kind_and_role_names() {
    assert_eq!(node_kind("comment"), NodeKind::Comment);
    assert_eq!(node_kind("method_index_expression"), NodeKind::MethodIndexExpression);
    assert_eq!(node_kind("chunk"), NodeKind::Other);
    assert_eq!(field_role("parameters"), FieldRole::Parameters);
    assert_eq!(field_role("body"), FieldRole::Other);
}

#[test]
fn raw_tree_names_are_read() {
    let raw = RawNode {
        kind: "field".to_string(),
        field: None,
        named: true,
        start_row: 2,
        end_row: 2,
        text: "x = 1".to_string(),
        children: vec![RawNode {
            kind: "identifier".to_string(),
            field: Some("name".to_string()),
            named: true,
            start_row: 2,
            end_row: 2,
            text: "x".to_string(),
            children: Vec::new(),
        }],
    };
    let n = to_syntax(&raw);
    assert_eq!(n.kind, NodeKind::Field);
    assert_eq!(n.role, None);
    assert_eq!(n.text, "x = 1");
    assert_eq!(n.children.len(), 1);
    assert_eq!(n.children[0].kind, NodeKind::Identifier);
    assert_eq!(n.children[0].role, Some(FieldRole::Name));
}
