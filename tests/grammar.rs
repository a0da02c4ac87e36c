use lcat::annotation::{
    parse_alias, parse_alias_line, parse_class, parse_enum, parse_field, parse_lcat, parse_param,
    parse_return, parse_see, parse_type, parse_type_annotation, LcatOption, PestParser, Rule,
    Scope,
};
use lcat::types::{IdentLookup, Literal, Metatype, Type, TypeInner};

fn parse(rule: Rule, input: &str) -> Result<(), String> {
    let parsed = PestParser::parse(rule, input).map_err(|_| format!("{input:?} does not parse"))?;
    if parsed != input {
        return Err(format!("failed to parse whole input: {parsed:?}"));
    }
    Ok(())
}

#[test]
fn single_type_parses() {
    parse(Rule::ty, "string").unwrap();
}

#[test]
fn type_in_parentheses_parses() {
    parse(Rule::ty, "(number)").unwrap();
}

#[test]
fn function_defs_parse() -> Result<(), String> {
    parse(Rule::function_def, "fun()")?;
    parse(Rule::function_def, "fun(): any")?;
    parse(Rule::function_def, "fun(arg1)")?;
    parse(Rule::function_def, "fun(arg1, arg2, arg3)")?;
    parse(
        Rule::function_def,
        "fun(arg1, arg2: nil, arg3, arg4: integer): string",
    )?;
    parse(
        Rule::function_def,
        "fun(arg1, arg2: fun(inner: integer, another)): string",
    )?;
    parse(
        Rule::function_def,
        "fun(arg1, arg2: fun(inner: integer, another)): string",
    )?;
    parse(
        Rule::function_def,
        "fun(arg1, arg2: fun(): integer, boolean): string",
    )?;
    parse(
        Rule::function_def,
        "fun(arg1, arg2: (fun(): integer), bool): string",
    )?;
    parse(Rule::function_def, "fun(): name: string")?;
    parse(Rule::function_def, "fun(): name: string, err: string?")?;
    Ok(())
}

#[test]
fn type_idents_parse() -> Result<(), String> {
    parse(Rule::type_ident, "string")?;
    parse(Rule::type_ident, "nil")?;
    parse(Rule::type_ident, "namespace.Class")?;
    parse(Rule::type_ident, "__namespace__.__Class__")?;
    parse(Rule::type_ident, "_..._nam.e.spa.ce.__.__Class__")?;
    Ok(())
}

#[test]
#[should_panic]
fn type_ident_starting_with_number_does_not_parse() {
    parse(Rule::type_ident, "4string").unwrap();
}

#[test]
fn table_defs_parse() -> Result<(), String> {
    parse(Rule::table_def, "{ }")?;
    parse(Rule::table_def, "{ [string]: integer }")?;
    parse(Rule::table_def, "{ x: integer, y: integer }")?;
    parse(Rule::table_def, "{ [integer]: string, str: integer }")?;
    Ok(())
}

#[test]
fn tuple_defs_parse() -> Result<(), String> {
    parse(Rule::tuple_def, "[ string, integer ]")?;
    parse(
        Rule::tuple_def,
        "[fun(): string, fun(p1, p2): string, string?]",
    )?;
    Ok(())
}

#[test]
fn generics_parse() -> Result<(), String> {
    parse(Rule::ty, "[string, integer]<A, B, C>")?;
    parse(Rule::ty, "table<integer, string>")?;
    Ok(())
}

#[test]
fn unions_parse() -> Result<(), String> {
    parse(Rule::ty, "string | integer | nil")?;
    parse(
        Rule::ty,
        "table<integer, string> | (fun(): string|nil) | nil<A, B> | number?",
    )?;
    Ok(())
}

#[test]
fn alias_parses() -> Result<(), String> {
    parse(Rule::alias, r#"thing.That "possible" | "impossible""#)?;
    parse(
        Rule::alias,
        r#"Rectangle "square" | "mongus" The description"#,
    )?;
    Ok(())
}

fn ty(text: &str) -> Type {
    parse_type(text).unwrap_or_else(|_| panic!("{text:?} does not parse"))
}

fn prim(inner: TypeInner) -> Type {
    Type::new(inner)
}

#[test]
fn round_trip_of_corpus() {
    let corpus = [
        "fun(arg1, arg2: fun(inner: integer, another)): string",
        "table<integer, string> | (fun(): string|nil) | nil<A, B> | number?",
        "string | integer | nil",
        "[string, integer]<A, B, C>",
        "{ [string]: integer, x?: boolean, [\"k\"]: number? }",
        "fun(): name: string, err: string?",
        "fun(a?: integer, b: fun(): integer, c): nil",
        "\"square\" | \"mongus\"",
        "namespace.Class[]",
        "(a | b)<T>[]",
        "(fun(): x)?",
        "(string?)[] | (a | b)",
        "(a | b)?",
        "a? | b",
        "12 | true | false",
        "[fun(): string, fun(p1, p2): string, string?]",
    ];
    for text in corpus {
        let first = ty(text);
        let printed = first.to_source();
        let second = ty(&printed);
        assert_eq!(first, second, "{text:?} printed as {printed:?}");
        assert_eq!(printed, second.to_source());
    }
}

#[test]
fn text_of_types() {
    assert_eq!(ty("fun(a, b: integer): string").to_text(), "fun(a: any, b: integer): string");
    assert_eq!(ty("{ [string]: integer, x: boolean }").to_text(), "{ [string]: integer, x: boolean }");
    assert_eq!(ty("table<integer, string>").to_text(), "table<integer, string>");
    assert_eq!(ty("A.B[][]").to_text(), "A.B[][]");
    assert_eq!(ty("(number)").to_text(), "number");
    assert_eq!(Type::integer_literal(-42).to_text(), "-42");
    assert_eq!(ty("\"x\"").format_as_table_field_name(), "\"x\"");
    assert_eq!(ty("integer").format_as_table_field_name(), "[integer]");
    assert_eq!(ty("Foo<T>").format_as_table_field_name(), "[Foo<T>]");
}

#[test]
fn one_alternative_is_not_a_union() {
    assert_eq!(ty("string"), prim(TypeInner::String));
    let mut nullable = prim(TypeInner::Number);
    nullable.make_nullable();
    assert_eq!(ty("number?"), nullable);
    assert!(ty("Foo").is_user_defined());
}

#[test]
fn nullable_mark_binds_to_its_alternative() {
    let t = ty("table<integer, string> | (fun(): string|nil) | nil<A, B> | number?");
    match t.inner {
        TypeInner::Union(m) => {
            assert_eq!(m.len(), 4);
            assert!(!t.nullable);
            assert!(m[3].nullable);
            assert_eq!(m[3].inner, TypeInner::Number);
            assert!(!m[0].nullable);
        }
        other => panic!("not a union: {other:?}"),
    }
    let whole = ty("(a | b)?");
    assert!(whole.nullable);
}

#[test]
fn alternatives_make_a_union_in_order() {
    let t = ty("string | integer | nil");
    assert_eq!(
        t,
        Type::union(vec![
            prim(TypeInner::String),
            prim(TypeInner::Integer),
            prim(TypeInner::Nil)
        ])
    );
    match ty("a | b").inner {
        TypeInner::Union(members) => assert_eq!(members.len(), 2),
        other => panic!("not a union: {other:?}"),
    }
}

#[test]
fn nullable_and_generic_commute() {
    let mut a = Type::user_defined("Map");
    a.make_nullable();
    a.add_generic(prim(TypeInner::String));
    let mut b = Type::user_defined("Map");
    b.add_generic(prim(TypeInner::String));
    b.make_nullable();
    assert_eq!(a, b);
    assert!(a.nullable);
    assert_eq!(a.generics, vec![prim(TypeInner::String)]);
}

#[test]
fn function_types_parse_into_args_and_returns() {
    let t = ty("fun(a, b?: integer): name: string, boolean");
    let mut nullable_int = prim(TypeInner::Integer);
    nullable_int.make_nullable();
    let expected = Type::function(
        vec![
            ("a".to_string(), prim(TypeInner::Any)),
            ("b".to_string(), nullable_int),
        ],
        vec![
            (Some("name".to_string()), prim(TypeInner::String)),
            (None, prim(TypeInner::Boolean)),
        ],
    );
    assert_eq!(t, expected);
}

#[test]
fn table_shape_key_nullable() {
    let t = ty("{ x?: integer }");
    let mut key = Type::string_literal("x");
    key.make_nullable();
    assert_eq!(t, Type::table(vec![(key, prim(TypeInner::Integer))]));
}

#[test]
fn literals_parse() {
    assert_eq!(ty("true"), Type::boolean_literal(true));
    assert_eq!(ty("42"), Type::integer_literal(42));
    assert_eq!(ty("\"on\""), Type::string_literal("\"on\""));
    assert_eq!(
        ty("9223372036854775807"),
        Type::integer_literal(9223372036854775807)
    );
    assert!(parse_type("9223372036854775808").is_err());
}

#[test]
fn arrays_and_generics() {
    let mut inner = Type::user_defined("List");
    inner.add_generic(prim(TypeInner::String));
    inner.make_array();
    assert_eq!(ty("List<string>[]"), inner);
    match ty("string[]").inner {
        TypeInner::Array(elem) => assert_eq!(*elem, prim(TypeInner::String)),
        other => panic!("not an array: {other:?}"),
    }
}

#[test]
fn malformed_types_are_rejected() {
    assert!(parse_type("").is_err());
    assert!(parse_type("fun(").is_err());
    assert!(parse_type("string |").is_err());
    assert!(parse_type("{ x integer }").is_err());
    assert!(parse_type_annotation("integer trailing words").is_err());
    assert!(parse_type_annotation("a )").is_err());
    assert!(parse_type_annotation("integer  ").is_ok());
}

#[test]
fn class_payloads() {
    let c = parse_class("(exact) Point : Shape", Some("A point".to_string())).unwrap();
    assert_eq!(c.name, "Point");
    assert!(c.exact);
    assert_eq!(c.parent, Some(Type::user_defined("Shape")));
    assert_eq!(c.description.as_deref(), Some("A point"));
    let plain = parse_class("Plain", None).unwrap();
    assert!(!plain.exact);
    assert!(plain.parent.is_none());
    assert!(parse_class("", None).is_err());
    assert!(parse_class("9lives", None).is_err());
    assert!(parse_class("Foo : string", None).is_err());
}

#[test]
fn field_payloads() {
    let f = parse_field("private count? integer how many", None).unwrap();
    assert_eq!(f.scope, Some(Scope::Private));
    assert_eq!(f.ident_type, Type::string_literal("count"));
    let mut nullable = prim(TypeInner::Integer);
    nullable.make_nullable();
    assert_eq!(f.ty, nullable);
    assert_eq!(f.description.as_deref(), Some("how many"));
    let g = parse_field("[string] boolean", Some("given".to_string())).unwrap();
    assert_eq!(g.ident_type, prim(TypeInner::String));
    assert_eq!(g.description.as_deref(), Some("given"));
    let h = parse_field("x: integer", None).unwrap();
    assert_eq!(h.scope, None);
    assert_eq!(h.ty, prim(TypeInner::Integer));
    assert!(parse_field("x", None).is_err());
}

#[test]
fn alias_payloads() {
    let a = parse_alias(r#"Rectangle "square" | "mongus" The description"#, None).unwrap();
    assert_eq!(a.name, "Rectangle");
    assert_eq!(a.types.len(), 1);
    assert_eq!(
        a.types[0].0,
        Type::union(vec![
            Type::string_literal("\"square\""),
            Type::string_literal("\"mongus\"")
        ])
    );
    assert_eq!(a.types[0].1.as_deref(), Some("The description"));
    let bare = parse_alias("Mode", None).unwrap();
    assert!(bare.types.is_empty());
    let (t, d) = parse_alias_line("\"on\" switched on", None).unwrap();
    assert_eq!(t, Type::string_literal("\"on\""));
    assert_eq!(d.as_deref(), Some("switched on"));
    assert!(parse_alias_line("", None).is_err());
}

#[test]
fn param_return_enum_see_payloads() {
    let p = parse_param("self Point the point").unwrap();
    assert_eq!(p.name, "self");
    assert_eq!(p.ty, Type::user_defined("Point"));
    assert_eq!(p.description.as_deref(), Some("the point"));
    assert!(parse_param("").is_err());
    let r = parse_return("count: integer").unwrap();
    assert_eq!(r.name.as_deref(), Some("count"));
    assert_eq!(r.ty, prim(TypeInner::Integer));
    let r2 = parse_return("integer").unwrap();
    assert!(r2.name.is_none());
    let e = parse_enum("key Color", None).unwrap();
    assert!(e.is_key);
    assert_eq!(e.name, "Color");
    assert!(!parse_enum("Color", None).unwrap().is_key);
    let s = parse_see("mod.Thing some text").unwrap();
    assert_eq!(s.ident, "mod.Thing");
    assert_eq!(s.description.as_deref(), Some("some text"));
    assert!(parse_see("").is_err());
}

#[test]
fn lcat_options() {
    assert_eq!(parse_lcat("nodoc").options, vec![LcatOption::Nodoc]);
    assert_eq!(parse_lcat("  NoDoc  other").options, vec![LcatOption::Nodoc]);
    assert!(parse_lcat("nodocs").options.is_empty());
    assert!(parse_lcat("").options.is_empty());
    assert_eq!(parse_lcat("a\u{c}nodoc").options, vec![LcatOption::Nodoc]);
    assert_eq!(parse_lcat("x\u{3000}NODOC\u{a0}nodoc").options, vec![LcatOption::Nodoc, LcatOption::Nodoc]);
}

#[test]
fn number_literal_text_is_kept() {
    let t = Type::new(TypeInner::Literal(Literal::Number("1.5".to_string())));
    assert_eq!(t.to_text(), "1.5");
}

#[test]
fn text_with_links() {
    let mut lookup = IdentLookup::new();
    lookup.insert("Point".to_string(), Metatype::Class);
    lookup.insert("_Hidden".to_string(), Metatype::Enum);
    assert_eq!(
        ty("Point").format_with_links(&lookup, "/base/"),
        "<a href=\"/base/classes/Point\">Point</a>"
    );
    assert_eq!(
        ty("_Hidden").format_with_links(&lookup, "/"),
        "<a href=\"/enums/_Hidden\">&#95;Hidden</a>"
    );
    assert_eq!(ty("Other").format_with_links(&lookup, "/"), "Other");
    assert_eq!(
        ty("fun(a?: integer): name: string?").format_with_links(&lookup, "/"),
        "fun(a?: integer): name: string?"
    );
    assert_eq!(ty("table<string, Point>").format_with_links(&IdentLookup::new(), "/"), "table&lt;string, Point>");
    assert_eq!(ty("{ x: integer? }").format_with_links(&lookup, "/"), "{ x?: integer }");
    lookup.insert("Point".to_string(), Metatype::Alias);
    assert_eq!(lookup.get(&"Point".to_string()), Some(Metatype::Alias));
    assert_eq!(lookup.get(&"Nope".to_string()), None);
}
