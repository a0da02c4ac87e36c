use lcat::annotation::{Class, LspField, TsField};
use lcat::processor::{try_parse_alias_line, try_parse_annotation, Annotation, Processor};
use lcat::render::{resolve_see, VitePressRenderer};
use lcat::scanner::{
    parse_blocks, Block, FieldBlock, FieldName, FieldRole, FunctionBlock, FunctionParam, NodeKind,
    SyntaxNode, TableBlock,
};
use lcat::types::{IdentLookup, Metatype, Type, TypeInner};

fn lines(ls: &[&str]) -> Vec<String> {
    ls.iter().map(|l| l.to_string()).collect()
}

fn table(annotations: &[&str], name: &str, fields: Vec<Block>) -> Block {
    Block::Table(TableBlock { annotations: lines(annotations), name: name.to_string(), fields })
}

fn function(annotations: &[&str], table: Option<&str>, name: &str, is_method: bool) -> Block {
    Block::Function(FunctionBlock {
        annotations: lines(annotations),
        table: table.map(|t| t.to_string()),
        name: name.to_string(),
        params: Vec::new(),
        is_method,
    })
}

fn field(annotations: &[&str], name: &str, value: &str) -> Block {
    Block::Field(FieldBlock {
        annotations: lines(annotations),
        name: Some(FieldName::Ident(name.to_string())),
        value: value.to_string(),
    })
}

fn run(blocks: Vec<Block>) -> Processor {
    let mut p = Processor::new();
    p.process_blocks(blocks);
    p
}

#[test]
fn end_to_end_point() {
    let p = run(vec![
        table(&["@class Point", "@field x integer", "@field y integer"], "Point", vec![]),
        Block::Function(FunctionBlock {
            annotations: lines(&["@param self Point", "@return integer"]),
            table: Some("Point".to_string()),
            name: "sum".to_string(),
            params: vec![FunctionParam::Ident("self".to_string())],
            is_method: false,
        }),
    ]);
    assert_eq!(p.classes.len(), 1);
    let c = &p.classes[0];
    assert_eq!(c.name, "Point");
    assert_eq!(c.lsp_fields.len(), 2);
    assert_eq!(c.lsp_fields[0].ident_type, Type::string_literal("x"));
    assert_eq!(c.lsp_fields[0].ty, Type::new(TypeInner::Integer));
    assert_eq!(c.lsp_fields[1].ident_type, Type::string_literal("y"));
    assert_eq!(c.lsp_fields[1].ty, Type::new(TypeInner::Integer));
    assert_eq!(p.functions.len(), 1);
    let f = &p.functions[0];
    assert_eq!(f.name, "sum");
    assert_eq!(f.table.as_deref(), Some("Point"));
    assert_eq!(f.params.len(), 1);
    assert_eq!(f.params[0].name, "self");
    assert_eq!(f.params[0].ty, Type::user_defined("Point"));
    assert_eq!(f.returns.len(), 1);
    assert_eq!(f.returns[0].ty, Type::new(TypeInner::Integer));
    assert!(p.aliases.is_empty());
    assert!(p.enums.is_empty());
}

#[test]
fn table_name_maps_to_class() {
    let p = run(vec![
        table(&["@class Foo"], "M", vec![]),
        function(&[], Some("M"), "bar", false),
        function(&[], Some("Other"), "baz", true),
    ]);
    assert_eq!(p.functions.len(), 2);
    assert_eq!(p.functions[0].name, "bar");
    assert_eq!(p.functions[0].table.as_deref(), Some("Foo"));
    assert_eq!(p.functions[1].table.as_deref(), Some("Other"));
    assert!(p.functions[1].is_method);
}

#[test]
fn nodoc_block_contributes_nothing() {
    let p = run(vec![
        table(
            &["@lcat nodoc", "@class Hidden", "@field x integer"],
            "Hidden",
            vec![field(&[], "x", "1")],
        ),
        function(&["@lcat nodoc", "@param a integer"], None, "hidden", false),
        table(&["@lcat nodoc", "@alias Gone string"], "G", vec![]),
        table(&["@class Shown"], "Shown", vec![]),
    ]);
    assert_eq!(p.classes.len(), 1);
    assert_eq!(p.classes[0].name, "Shown");
    assert!(p.functions.is_empty());
    assert!(p.aliases.is_empty());
}

#[test]
fn nodoc_after_a_committed_class_keeps_it() {
    let p = run(vec![table(&["@class A", "@class B", "@lcat nodoc"], "T", vec![])]);
    assert_eq!(p.classes.len(), 1);
    assert_eq!(p.classes[0].name, "A");
}

#[test]
fn nested_fields_and_methods_attach_to_class() {
    let p = run(vec![table(
        &["@class Config", "@field debug boolean"],
        "Config",
        vec![
            field(&["the debug flag"], "debug", "false"),
            field(&["@type integer", "how many"], "count", "3"),
            function(&["@return string"], None, "name", false),
        ],
    )]);
    assert_eq!(p.classes.len(), 1);
    let c = &p.classes[0];
    assert_eq!(c.ts_fields.len(), 2);
    assert_eq!(c.ts_fields[1].ty, Some(Type::new(TypeInner::Integer)));
    assert_eq!(c.ts_fields[1].description.as_deref(), Some("how many"));
    let fields = c.fields();
    assert_eq!(fields.len(), 2);
    assert_eq!(fields[0].ident_type, Type::string_literal("debug"));
    assert_eq!(fields[0].ty, Some(Type::new(TypeInner::Boolean)));
    assert_eq!(fields[0].value.as_deref(), Some("false"));
    assert_eq!(fields[0].description.as_deref(), Some("the debug flag"));
    assert_eq!(fields[1].ident_type, Type::string_literal("count"));
    assert_eq!(fields[1].value.as_deref(), Some("3"));
    assert_eq!(p.functions.len(), 1);
    assert_eq!(p.functions[0].table.as_deref(), Some("Config"));
}

#[test]
fn class_field_merge() {
    let class = Class {
        name: "P".to_string(),
        description: None,
        exact: false,
        parent: None,
        lsp_fields: vec![LspField {
            ident_type: Type::string_literal("x"),
            ty: Type::new(TypeInner::Integer),
            description: None,
            scope: None,
        }],
        ts_fields: vec![
            TsField {
                name: Some(FieldName::Ident("x".to_string())),
                ty: None,
                description: Some("from the table".to_string()),
                value: "5".to_string(),
            },
            TsField {
                name: Some(FieldName::Value("\"k\"".to_string())),
                ty: None,
                description: None,
                value: "1".to_string(),
            },
        ],
        is_module: false,
    };
    let fields = class.fields();
    assert_eq!(fields.len(), 1);
    assert_eq!(fields[0].ident_type, Type::string_literal("x"));
    assert_eq!(fields[0].ty, Some(Type::new(TypeInner::Integer)));
    assert_eq!(fields[0].value.as_deref(), Some("5"));
    assert_eq!(fields[0].description.as_deref(), Some("from the table"));
}

#[test]
fn alias_continuation_lines() {
    let p = run(vec![table(
        &["@alias Mode", "| \"on\" switched on", "| \"off\"", "plain text"],
        "x",
        vec![],
    )]);
    assert_eq!(p.aliases.len(), 1);
    let a = &p.aliases[0];
    assert_eq!(a.name, "Mode");
    assert_eq!(a.types.len(), 2);
    assert_eq!(a.types[0].0, Type::string_literal("\"on\""));
    assert_eq!(a.types[0].1.as_deref(), Some("switched on"));
    assert_eq!(a.types[1].1, None);
}

#[test]
fn descriptions_join_lines() {
    let p = run(vec![function(&["first line", "second line", "@see Foo.bar related"], None, "f", false)]);
    assert_eq!(p.functions.len(), 1);
    assert_eq!(p.functions[0].description.as_deref(), Some("first line\nsecond line"));
    assert_eq!(p.functions[0].sees.len(), 1);
    assert_eq!(p.functions[0].sees[0].ident, "Foo.bar");
}

#[test]
fn enum_fields_from_table() {
    let p = run(vec![table(
        &["@enum key Color"],
        "Color",
        vec![field(&["red"], "Red", "1"), field(&[], "Blue", "2")],
    )]);
    assert_eq!(p.enums.len(), 1);
    assert!(p.enums[0].is_key);
    assert_eq!(p.enums[0].fields.len(), 2);
    assert_eq!(p.enums[0].fields[0].value, "1");
}

#[test]
fn annotation_lines() {
    match try_parse_annotation("@class Foo") {
        Some((Annotation::Class, rest)) => assert_eq!(rest, "Foo"),
        _ => panic!("not a class tag"),
    }
    match try_parse_annotation("@custom thing") {
        Some((Annotation::Unknown(name), rest)) => {
            assert_eq!(name, "custom");
            assert_eq!(rest, "thing");
        }
        _ => panic!("not an unknown tag"),
    }
    assert!(try_parse_annotation("plain words").is_none());
    assert_eq!(try_parse_alias_line("| \"a\""), Some(Some("\"a\"".to_string())));
    assert_eq!(try_parse_alias_line("|"), Some(None));
    assert_eq!(try_parse_alias_line("no bar"), None);
}

fn node(kind: NodeKind, role: Option<FieldRole>, row: usize, text: &str, children: Vec<SyntaxNode>) -> SyntaxNode {
    SyntaxNode {
        kind,
        role,
        named: true,
        start_row: row,
        end_row: row,
        text: text.to_string(),
        children,
    }
}

#[test]
fn scanner_groups_comment_runs() {
    // ---@class Foo
    // ---@field x integer
    // local M = {}
    let name = node(NodeKind::Identifier, Some(FieldRole::Name), 2, "M", vec![]);
    let ctor = node(NodeKind::TableConstructor, Some(FieldRole::Value), 2, "{}", vec![]);
    let vars = node(NodeKind::VariableList, None, 2, "M", vec![name]);
    let exprs = node(NodeKind::ExpressionList, None, 2, "{}", vec![ctor]);
    let assign = node(NodeKind::AssignmentStatement, None, 2, "M = {}", vec![vars, exprs]);
    let decl = node(NodeKind::VariableDeclaration, None, 2, "local M = {}", vec![assign]);
    let siblings = vec![
        node(NodeKind::Comment, None, 0, "---@class Foo", vec![]),
        node(NodeKind::Comment, None, 1, "---@field x integer", vec![]),
        decl,
        node(NodeKind::Comment, None, 4, "---loose", vec![]),
    ];
    let blocks = parse_blocks(&siblings, false);
    assert_eq!(blocks.len(), 2);
    match &blocks[0] {
        Block::Table(t) => {
            assert_eq!(t.name, "M");
            assert_eq!(t.annotations, lines(&["@class Foo", "@field x integer"]));
        }
        other => panic!("not a table block: {other:?}"),
    }
    match &blocks[1] {
        Block::Free(f) => assert_eq!(f.annotations, vec!["loose".to_string()]),
        other => panic!("not a free block: {other:?}"),
    }
}

fn token(text: &str, row: usize) -> SyntaxNode {
    SyntaxNode {
        kind: NodeKind::Other,
        role: None,
        named: false,
        start_row: row,
        end_row: row,
        text: text.to_string(),
        children: Vec::new(),
    }
}

#[test]
fn scanner_reads_methods_and_table_fields() {
    // ---@class Obj
    // local Obj = {
    //   ---the x
    //   x = 1,
    //   f = function() end,
    // }
    // ---A method.
    // function Obj:m(a, ...) end
    let x_field = node(
        NodeKind::Field,
        None,
        3,
        "x = 1",
        vec![
            node(NodeKind::Identifier, Some(FieldRole::Name), 3, "x", vec![]),
            token("=", 3),
            node(NodeKind::Other, Some(FieldRole::Value), 3, "1", vec![]),
        ],
    );
    let f_field = node(
        NodeKind::Field,
        None,
        4,
        "f = function() end",
        vec![
            node(NodeKind::Identifier, Some(FieldRole::Name), 4, "f", vec![]),
            token("=", 4),
            node(
                NodeKind::FunctionDefinition,
                Some(FieldRole::Value),
                4,
                "function() end",
                vec![node(NodeKind::Parameters, Some(FieldRole::Parameters), 4, "()", vec![])],
            ),
        ],
    );
    let ctor = node(
        NodeKind::TableConstructor,
        Some(FieldRole::Value),
        1,
        "{ ... }",
        vec![
            token("{", 1),
            node(NodeKind::Comment, None, 2, "---the x", vec![]),
            x_field,
            token(",", 3),
            f_field,
            token(",", 4),
            token("}", 5),
        ],
    );
    let decl = node(
        NodeKind::VariableDeclaration,
        None,
        1,
        "local Obj = { ... }",
        vec![node(
            NodeKind::AssignmentStatement,
            None,
            1,
            "Obj = { ... }",
            vec![
                node(
                    NodeKind::VariableList,
                    None,
                    1,
                    "Obj",
                    vec![node(NodeKind::Identifier, Some(FieldRole::Name), 1, "Obj", vec![])],
                ),
                node(NodeKind::ExpressionList, None, 1, "{ ... }", vec![ctor]),
            ],
        )],
    );
    let method = node(
        NodeKind::FunctionDeclaration,
        None,
        7,
        "function Obj:m(a, ...) end",
        vec![
            token("function", 7),
            node(
                NodeKind::MethodIndexExpression,
                Some(FieldRole::Name),
                7,
                "Obj:m",
                vec![
                    node(NodeKind::Identifier, Some(FieldRole::Table), 7, "Obj", vec![]),
                    token(":", 7),
                    node(NodeKind::Identifier, Some(FieldRole::Method), 7, "m", vec![]),
                ],
            ),
            node(
                NodeKind::Parameters,
                Some(FieldRole::Parameters),
                7,
                "(a, ...)",
                vec![
                    token("(", 7),
                    node(NodeKind::Identifier, None, 7, "a", vec![]),
                    token(",", 7),
                    node(NodeKind::VarargExpression, None, 7, "...", vec![]),
                    token(")", 7),
                ],
            ),
            token("end", 7),
        ],
    );
    let chunk = node(
        NodeKind::Other,
        None,
        0,
        "",
        vec![
            node(NodeKind::Comment, None, 0, "---@class Obj", vec![]),
            decl,
            node(NodeKind::Comment, None, 6, "---A method.", vec![]),
            method,
        ],
    );
    let blocks = parse_blocks(&vec![chunk], false);
    assert_eq!(blocks.len(), 2);
    match &blocks[0] {
        Block::Table(t) => {
            assert_eq!(t.name, "Obj");
            assert_eq!(t.fields.len(), 2);
            match &t.fields[0] {
                Block::Field(f) => {
                    assert_eq!(f.annotations, lines(&["the x"]));
                    assert_eq!(f.value, "1");
                }
                other => panic!("not a field block: {other:?}"),
            }
            match &t.fields[1] {
                Block::Function(f) => {
                    assert_eq!(f.name, "f");
                    assert_eq!(f.table, None);
                }
                other => panic!("not a function block: {other:?}"),
            }
        }
        other => panic!("not a table block: {other:?}"),
    }
    match &blocks[1] {
        Block::Function(f) => {
            assert_eq!(f.name, "m");
            assert_eq!(f.table.as_deref(), Some("Obj"));
            assert!(f.is_method);
            assert_eq!(f.params.len(), 2);
            assert!(matches!(&f.params[0], FunctionParam::Ident(a) if a == "a"));
            assert!(matches!(f.params[1], FunctionParam::Varargs));
        }
        other => panic!("not a function block: {other:?}"),
    }

    let mut p = Processor::new();
    p.process_blocks(blocks);
    assert_eq!(p.classes.len(), 1);
    assert_eq!(p.classes[0].ts_fields.len(), 1);
    assert_eq!(p.classes[0].ts_fields[0].description.as_deref(), Some("the x"));
    assert_eq!(p.functions.len(), 2);
    assert_eq!(p.functions[0].name, "f");
    assert_eq!(p.functions[0].table.as_deref(), Some("Obj"));
    assert_eq!(p.functions[1].name, "m");
    assert_eq!(p.functions[1].table.as_deref(), Some("Obj"));
    assert_eq!(p.functions[1].description.as_deref(), Some("A method."));
}

#[test]
fn renderer_settings() {
    let r = VitePressRenderer::new("out".into(), None);
    assert_eq!(r.base_url, "/");
    assert_eq!(r.out_dir, std::path::PathBuf::from("out"));
    let r = VitePressRenderer::new("site".into(), Some("/docs/".to_string()));
    assert_eq!(r.base_url, "/docs/");
}

#[test]
fn see_references_resolve_to_entities() {
    let mut lookup = IdentLookup::new();
    lookup.insert("mod".to_string(), Metatype::Alias);
    lookup.insert("mod.Thing".to_string(), Metatype::Class);
    let t = resolve_see("mod.Thing.method", &lookup).expect("resolves");
    assert_eq!(t.metatype, Metatype::Class);
    assert_eq!(t.entity, "mod.Thing");
    assert_eq!(t.rest, "method");
    let whole = resolve_see("mod.Thing", &lookup).expect("resolves");
    assert_eq!(whole.entity, "mod.Thing");
    assert_eq!(whole.rest, "");
    let short = resolve_see("mod.Other.x", &lookup).expect("resolves");
    assert_eq!(short.metatype, Metatype::Alias);
    assert_eq!(short.entity, "mod");
    assert_eq!(short.rest, "Other.x");
    assert!(resolve_see("Unknown.x", &lookup).is_none());
}

fn free(annotations: &[&str]) -> Block {
    Block::Free(lcat::scanner::FreeBlock { annotations: lines(annotations) })
}

#[test]
fn table_map_lasts_for_the_run() {
    let mut p = Processor::new();
    p.process_blocks(vec![table(&["@class Foo"], "M", vec![])]);
    p.process_blocks(vec![function(&[], Some("M"), "bar", false)]);
    assert_eq!(p.functions.len(), 1);
    assert_eq!(p.functions[0].table.as_deref(), Some("Foo"));
}

#[test]
fn a_new_class_commits_the_pending_one() {
    let p = run(vec![free(&["@class A", "@class B"])]);
    assert_eq!(p.classes.len(), 2);
    assert_eq!(p.classes[0].name, "A");
    assert_eq!(p.classes[1].name, "B");
}

#[test]
fn field_without_class_is_dropped() {
    let p = run(vec![free(&["@field x integer", "@class A", "@field y string"])]);
    assert_eq!(p.classes.len(), 1);
    assert_eq!(p.classes[0].lsp_fields.len(), 1);
    assert_eq!(p.classes[0].lsp_fields[0].ident_type, Type::string_literal("y"));
    assert_eq!(p.classes[0].lsp_fields[0].ty, Type::new(TypeInner::String));
}

#[test]
fn param_commits_the_pending_class() {
    let p = run(vec![function(&["@class A", "@param x integer"], None, "f", false)]);
    assert_eq!(p.classes.len(), 1);
    assert_eq!(p.classes[0].name, "A");
    assert!(p.classes[0].lsp_fields.is_empty());
    assert_eq!(p.functions.len(), 1);
    assert_eq!(p.functions[0].params.len(), 1);
    assert_eq!(p.functions[0].params[0].name, "x");
    assert_eq!(p.functions[0].params[0].ty, Type::new(TypeInner::Integer));
    assert!(p.functions[0].table.is_none());
}

#[test]
fn malformed_class_is_dropped_and_later_tags_run() {
    let p = run(vec![free(&["@class 9bad", "@alias Mode string"])]);
    assert!(p.classes.is_empty());
    assert_eq!(p.aliases.len(), 1);
    assert_eq!(p.aliases[0].name, "Mode");
}

#[test]
fn type_tag_with_leftover_text_is_dropped() {
    let p = run(vec![table(
        &["@class C"],
        "C",
        vec![field(&["@type integer )"], "a", "1"), field(&["@type integer"], "b", "2")],
    )]);
    assert_eq!(p.classes.len(), 1);
    assert_eq!(p.classes[0].ts_fields.len(), 2);
    assert_eq!(p.classes[0].ts_fields[0].ty, None);
    assert_eq!(p.classes[0].ts_fields[1].ty, Some(Type::new(TypeInner::Integer)));
}
