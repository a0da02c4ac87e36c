//! The annotation tags: their payload grammar, and the entities they declare.
use vstd::prelude::*;
use vstd::string::*;
use crate::grammar::{
    field_key, function_def, ident, is_ws, p_field_key, p_function_def, p_ident, p_ret,
    p_skip_ws, p_table_def, p_tok, p_tuple_def, p_type_ident, p_ty, p_word, p_word_at, pos, ret,
    skip_ws, table_def, tok, tuple_def, ty, type_ident, with_nullable, word, word_at, Source,
};
use crate::scanner::FieldName;
use crate::types::{
    bare, lemma_types_model, opt_str_model, type_model, KindModel, Literal, LiteralModel, Type,
    TypeInner, TypeModel,
};

verus! {

/// A payload that does not match the grammar of its tag.
#[derive(Debug, Clone, Copy, PartialEq, Eq, Structural)]
pub struct GrammarError;

#[derive(Debug, Clone, Copy, PartialEq, Eq, Structural)]
pub enum Scope {
    Public,
    Private,
    Protected,
    Package,
}

pub struct Alias {
    pub name: String,
    pub description: Option<String>,
    pub types: Vec<(Type, Option<String>)>,
}

pub struct Class {
    pub name: String,
    pub description: Option<String>,
    pub exact: bool,
    pub parent: Option<Type>,
    pub lsp_fields: Vec<LspField>,
    pub ts_fields: Vec<TsField>,
    pub is_module: bool,
}

/// A field declared by a `@field` tag.
pub struct LspField {
    pub ident_type: Type,
    pub ty: Type,
    pub description: Option<String>,
    pub scope: Option<Scope>,
}

/// A field found in the body of a table literal.
pub struct TsField {
    pub name: Option<FieldName>,
    pub ty: Option<Type>,
    pub description: Option<String>,
    pub value: String,
}

/// A field of a class, merged from its tag and its table entry.
pub struct ClassField {
    pub ident_type: Type,
    pub ty: Option<Type>,
    pub description: Option<String>,
    pub scope: Option<Scope>,
    pub value: Option<String>,
}

pub struct Param {
    pub name: String,
    pub ty: Type,
    pub description: Option<String>,
}

pub struct Return {
    pub name: Option<String>,
    pub ty: Type,
    pub description: Option<String>,
}

pub struct Function {
    pub name: String,
    pub table: Option<String>,
    pub params: Vec<Param>,
    pub returns: Vec<Return>,
    pub sees: Vec<See>,
    pub is_method: bool,
    pub description: Option<String>,
}

pub struct Enum {
    pub name: String,
    pub description: Option<String>,
    pub is_key: bool,
    pub fields: Vec<TsField>,
}

pub struct Lcat {
    pub options: Vec<LcatOption>,
}

#[derive(Debug, Clone, Copy, PartialEq, Eq, Structural)]
pub enum LcatOption {
    Nodoc,
}

pub struct See {
    pub ident: String,
    pub description: Option<String>,
}

pub open spec fn opt_type_model(o: Option<Type>) -> Option<TypeModel> {
    match o {
        Some(t) => Some(type_model(&t)),
        None => None,
    }
}

/// A description given beside the tag, else the one at the end of its line.
pub open spec fn or_desc(d: Option<String>, eol: Option<Seq<char>>) -> Option<Seq<char>> {
    match d {
        Some(x) => Some(x@),
        None => eol,
    }
}

// ---------------------------------------------------------------------------
// Payload grammar
// ---------------------------------------------------------------------------

/// The rest of the line after whitespace, where anything is left.
pub open spec fn rest_of_line(s: Seq<char>, i: int) -> Option<Seq<char>> {
    let j = skip_ws(s, i);
    if 0 <= j < s.len() {
        Some(s.subrange(j, s.len() as int))
    } else {
        None
    }
}

/// `@name rest`: the tag's name and what follows it.
pub open spec fn tag_line(s: Seq<char>) -> Option<(Seq<char>, Seq<char>)> {
    match tok(s, 0, '@') {
        Some(k) => match ident(s, k) {
            Some((j, k2)) => Some(
                (
                    s.subrange(j, k2),
                    match rest_of_line(s, k2) {
                        Some(r) => r,
                        None => Seq::empty(),
                    },
                ),
            ),
            None => None,
        },
        None => None,
    }
}

/// `(exact)? Name (":" Parent)?`, where the parent must name a type of
/// the user's.
pub open spec fn class_decl(s: Seq<char>) -> Option<(bool, Seq<char>, Option<TypeModel>)> {
    let (exact, k) = match word(s, 0, "(exact)"@) {
        Some(k) => (true, k),
        None => (false, 0),
    };
    match type_ident(s, k) {
        Some((j, k2)) => match tok(s, k2, ':') {
            Some(k3) => match ty(s, k3) {
                Some((t, _)) => if t.inner is UserDefined {
                    Some((exact, s.subrange(j, k2), Some(t)))
                } else {
                    None
                },
                None => Some((exact, s.subrange(j, k2), None)),
            },
            None => Some((exact, s.subrange(j, k2), None)),
        },
        None => None,
    }
}

/// A keyword that must be followed by whitespace.
pub open spec fn keyword(s: Seq<char>, i: int, w: Seq<char>) -> Option<int> {
    let j = skip_ws(s, i);
    if word_at(s, j, w) && j + w.len() < s.len() && is_ws(s[j + w.len()]) {
        Some(j + w.len())
    } else {
        None
    }
}

pub open spec fn scope_word(s: Seq<char>, i: int) -> Option<(Scope, int)> {
    if keyword(s, i, "public"@) is Some {
        Some((Scope::Public, keyword(s, i, "public"@)->0))
    } else if keyword(s, i, "private"@) is Some {
        Some((Scope::Private, keyword(s, i, "private"@)->0))
    } else if keyword(s, i, "protected"@) is Some {
        Some((Scope::Protected, keyword(s, i, "protected"@)->0))
    } else if keyword(s, i, "package"@) is Some {
        Some((Scope::Package, keyword(s, i, "package"@)->0))
    } else {
        None
    }
}

/// `scope? key "?"? ":"? type rest?`, where the key is `[type]` or a name;
/// the `?` makes the value nullable.
pub open spec fn field_decl(s: Seq<char>) -> Option<
    (Option<Scope>, TypeModel, TypeModel, Option<Seq<char>>),
> {
    let (scope, k0) = match scope_word(s, 0) {
        Some((sc, k)) => (Some(sc), k),
        None => (None, 0),
    };
    match field_key(s, k0) {
        Some((key, k1)) => {
            let (q, k2) = match tok(s, k1, '?') {
                Some(k) => (true, k),
                None => (false, k1),
            };
            let k3 = match tok(s, k2, ':') {
                Some(k) => k,
                None => k2,
            };
            match ty(s, k3) {
                Some((t, k4)) => Some((scope, key, with_nullable(t, q), rest_of_line(s, k4))),
                None => None,
            }
        },
        None => None,
    }
}

/// `Name type? rest?`
pub open spec fn alias_decl(s: Seq<char>) -> Option<(Seq<char>, Option<TypeModel>, Option<Seq<char>>)> {
    match type_ident(s, 0) {
        Some((j, k)) => match ty(s, k) {
            Some((t, k2)) => Some((s.subrange(j, k), Some(t), rest_of_line(s, k2))),
            None => Some((s.subrange(j, k), None, rest_of_line(s, k))),
        },
        None => None,
    }
}

/// Where the alias rule ends.
pub open spec fn alias_end(s: Seq<char>) -> Option<int> {
    match type_ident(s, 0) {
        Some((j, k)) => {
            let k2 = match ty(s, k) {
                Some((_, k2)) => k2,
                None => k,
            };
            match rest_of_line(s, k2) {
                Some(_) => Some(s.len() as int),
                None => Some(k2),
            }
        },
        None => None,
    }
}

/// `type rest?`: one more alternative of an alias.
pub open spec fn alias_line(s: Seq<char>) -> Option<(TypeModel, Option<Seq<char>>)> {
    match ty(s, 0) {
        Some((t, k)) => Some((t, rest_of_line(s, k))),
        None => None,
    }
}

/// `| rest?`: a continuation line of an alias; what follows the bar.
pub open spec fn piped_line(s: Seq<char>) -> Option<Option<Seq<char>>> {
    match tok(s, 0, '|') {
        Some(k) => Some(rest_of_line(s, k)),
        None => None,
    }
}

/// `name "?"? ":"? type rest?`; the `?` makes the type nullable.
pub open spec fn param_decl(s: Seq<char>) -> Option<(Seq<char>, TypeModel, Option<Seq<char>>)> {
    match ident(s, 0) {
        Some((j, k)) => {
            let (q, k2) = match tok(s, k, '?') {
                Some(k1) => (true, k1),
                None => (false, k),
            };
            let k3 = match tok(s, k2, ':') {
                Some(k1) => k1,
                None => k2,
            };
            match ty(s, k3) {
                Some((t, k4)) => Some((s.subrange(j, k), with_nullable(t, q), rest_of_line(s, k4))),
                None => None,
            }
        },
        None => None,
    }
}

/// `(name ":")? type rest?`
pub open spec fn return_decl(s: Seq<char>) -> Option<
    (Option<Seq<char>>, TypeModel, Option<Seq<char>>),
> {
    match ret(s, 0) {
        Some(((n, t), k)) => Some((n, t, rest_of_line(s, k))),
        None => None,
    }
}

/// `key? Name rest?`: whether the enum is keyed, and its name.
pub open spec fn enum_decl(s: Seq<char>) -> Option<(bool, Seq<char>)> {
    let (is_key, k) = match keyword(s, 0, "key"@) {
        Some(k) => (true, k),
        None => (false, 0),
    };
    match type_ident(s, k) {
        Some((j, k2)) => Some((is_key, s.subrange(j, k2))),
        None => None,
    }
}

/// `Name rest?`
pub open spec fn see_decl(s: Seq<char>) -> Option<(Seq<char>, Option<Seq<char>>)> {
    match type_ident(s, 0) {
        Some((j, k)) => Some((s.subrange(j, k), rest_of_line(s, k))),
        None => None,
    }
}

/// The characters that std's `char::is_whitespace` holds of: those with
/// the Unicode `White_Space` property.
pub open spec fn is_space(c: char) -> bool {
    ('\u{9}' <= c && c <= '\u{d}') || c == ' ' || c == '\u{85}' || c == '\u{a0}' || c
        == '\u{1680}' || ('\u{2000}' <= c && c <= '\u{200a}') || c == '\u{2028}' || c
        == '\u{2029}' || c == '\u{202f}' || c == '\u{205f}' || c == '\u{3000}'
}

fn is_space_exec(c: char) -> (r: bool)
    ensures
        r == is_space(c),
{
    ('\u{9}' <= c && c <= '\u{d}') || c == ' ' || c == '\u{85}' || c == '\u{a0}' || c
        == '\u{1680}' || ('\u{2000}' <= c && c <= '\u{200a}') || c == '\u{2028}' || c
        == '\u{2029}' || c == '\u{202f}' || c == '\u{205f}' || c == '\u{3000}'
}

/// The word equals `nodoc` when ASCII case is ignored.
pub open spec fn is_nodoc(w: Seq<char>) -> bool {
    w.len() == 5 && (w[0] == 'n' || w[0] == 'N') && (w[1] == 'o' || w[1] == 'O') && (w[2] == 'd'
        || w[2] == 'D') && (w[3] == 'o' || w[3] == 'O') && (w[4] == 'c' || w[4] == 'C')
}

pub open spec fn word_end(s: Seq<char>, i: int) -> int
    decreases s.len() - i,
{
    if 0 <= i < s.len() && !is_space(s[i]) {
        word_end(s, i + 1)
    } else {
        i
    }
}

pub open spec fn space_end(s: Seq<char>, i: int) -> int
    decreases s.len() - i,
{
    if 0 <= i < s.len() && is_space(s[i]) {
        space_end(s, i + 1)
    } else {
        i
    }
}

proof fn lemma_word_end(s: Seq<char>, i: int)
    requires
        0 <= i <= s.len(),
    ensures
        i <= word_end(s, i) <= s.len(),
    decreases s.len() - i,
{
    if i < s.len() && !is_space(s[i]) {
        lemma_word_end(s, i + 1);
    }
}

proof fn lemma_space_end(s: Seq<char>, i: int)
    requires
        0 <= i <= s.len(),
    ensures
        i <= space_end(s, i) <= s.len(),
        space_end(s, i) < s.len() ==> !is_space(s[space_end(s, i)]),
    decreases s.len() - i,
{
    if i < s.len() && is_space(s[i]) {
        lemma_space_end(s, i + 1);
    }
}

/// How many of the whitespace-separated words from `i` on are `nodoc`.
pub open spec fn nodoc_count(s: Seq<char>, i: int) -> nat
    decreases s.len() - i,
{
    let j = space_end(s, i);
    if 0 <= i <= j < s.len() {
        let k = word_end(s, j);
        if j < k <= s.len() {
            (if is_nodoc(s.subrange(j, k)) {
                1nat
            } else {
                0nat
            }) + nodoc_count(s, k)
        } else {
            0
        }
    } else {
        0
    }
}

// ---------------------------------------------------------------------------
// Rules
// ---------------------------------------------------------------------------

/// The rules of the grammar that can be matched on their own.
#[allow(non_camel_case_types)]
#[derive(Debug, Clone, Copy, PartialEq, Eq, Structural)]
pub enum Rule {
    ty,
    function_def,
    table_def,
    tuple_def,
    type_ident,
    alias,
}

/// Where a match of the rule at the start of the text ends.
pub open spec fn rule_end(rule: Rule, s: Seq<char>) -> Option<int> {
    match rule {
        Rule::ty => match ty(s, 0) {
            Some((_, k)) => Some(k),
            None => None,
        },
        Rule::function_def => match function_def(s, 0) {
            Some((_, k)) => Some(k),
            None => None,
        },
        Rule::table_def => match table_def(s, 0) {
            Some((_, k)) => Some(k),
            None => None,
        },
        Rule::tuple_def => match tuple_def(s, 0) {
            Some((_, k)) => Some(k),
            None => None,
        },
        Rule::type_ident => match type_ident(s, 0) {
            Some((_, k)) => Some(k),
            None => None,
        },
        Rule::alias => alias_end(s),
    }
}

/// Matching of a grammar rule at the start of a text.
pub struct PestParser;

impl PestParser {
    /// The text that the rule matches at the start of `input`.
    pub fn parse(rule: Rule, input: &str) -> (r: Result<String, GrammarError>)
        ensures
            match rule_end(rule, input@) {
                Some(k) => r matches Ok(m) && m@ == input@.subrange(0, k),
                None => r is Err,
            },
    {
        let src = Source::new(input);
        let end = match rule {
            Rule::ty => match p_ty(&src, 0) {
                Some((_, k)) => Some(k),
                None => None,
            },
            Rule::function_def => match p_function_def(&src, 0) {
                Some((_, k)) => Some(k),
                None => None,
            },
            Rule::table_def => match p_table_def(&src, 0) {
                Some((_, k)) => Some(k),
                None => None,
            },
            Rule::tuple_def => match p_tuple_def(&src, 0) {
                Some((_, k)) => Some(k),
                None => None,
            },
            Rule::type_ident => match p_type_ident(&src, 0) {
                Some((_, k)) => Some(k),
                None => None,
            },
            Rule::alias => match p_type_ident(&src, 0) {
                Some((_, k)) => {
                    let k2 = match p_ty(&src, k) {
                        Some((_, k2)) => k2,
                        None => k,
                    };
                    match p_rest_of_line(&src, k2) {
                        Some(_) => Some(src.chars.len()),
                        None => Some(k2),
                    }
                },
                None => None,
            },
        };
        match end {
            Some(k) => Ok(src.slice(0, k)),
            None => Err(GrammarError),
        }
    }
}

// ---------------------------------------------------------------------------
// Payload parsers
// ---------------------------------------------------------------------------

pub fn p_rest_of_line(src: &Source, i: usize) -> (r: Option<String>)
    requires
        src.wf(),
        i <= src.s().len(),
    ensures
        opt_str_model(r) == rest_of_line(src.s(), i as int),
{
    let j = p_skip_ws(src, i);
    if j < src.chars.len() {
        Some(src.slice(j, src.chars.len()))
    } else {
        None
    }
}

pub fn p_keyword(src: &Source, i: usize, w: &str) -> (r: Option<usize>)
    requires
        src.wf(),
        i <= src.s().len(),
    ensures
        pos(r) == keyword(src.s(), i as int, w@),
        r matches Some(k) ==> k <= src.s().len(),
{
    let j = p_skip_ws(src, i);
    let len = src.chars.len();
    if p_word_at(src, j, w) {
        let k = j + w.unicode_len();
        if k < len && (src.chars[k] == ' ' || src.chars[k] == '\t') {
            return Some(k);
        }
    }
    None
}

/// The tag's name and the rest of its line, for a line of the form
/// `@name rest`.
pub fn parse_tag_line(line: &str) -> (r: Option<(String, String)>)
    ensures
        match r {
            Some((n, rest)) => tag_line(line@) == Some((n@, rest@)),
            None => tag_line(line@) is None,
        },
{
    let src = Source::new(line);
    match p_tok(&src, 0, '@') {
        Some(k) => match p_ident(&src, k) {
            Some((j, k2)) => {
                let rest = match p_rest_of_line(&src, k2) {
                    Some(r) => r,
                    None => String::new(),
                };
                Some((src.slice(j, k2), rest))
            },
            None => None,
        },
        None => None,
    }
}

pub fn parse_class(class: &str, description: Option<String>) -> (r: Result<Class, GrammarError>)
    ensures
        match class_decl(class@) {
            Some((exact, name, parent)) => r matches Ok(c) && c.name@ == name && c.exact == exact
                && opt_type_model(c.parent) == parent && c.description == description
                && c.lsp_fields@.len() == 0 && c.ts_fields@.len() == 0 && !c.is_module,
            None => r is Err,
        },
{
    let src = Source::new(class);
    proof {
        reveal_strlit("(exact)");
    }
    let (exact, k) = match p_word(&src, 0, "(exact)") {
        Some(k) => (true, k),
        None => (false, 0),
    };
    match p_type_ident(&src, k) {
        Some((j, k2)) => {
            let parent = match p_tok(&src, k2, ':') {
                Some(k3) => match p_ty(&src, k3) {
                    Some((t, _)) => if t.is_user_defined() {
                        Some(t)
                    } else {
                        return Err(GrammarError);
                    },
                    None => None,
                },
                None => None,
            };
            Ok(
                Class {
                    name: src.slice(j, k2),
                    description,
                    exact,
                    parent,
                    lsp_fields: Vec::new(),
                    ts_fields: Vec::new(),
                    is_module: false,
                },
            )
        },
        None => Err(GrammarError),
    }
}

fn p_scope_word(src: &Source, i: usize) -> (r: Option<(Scope, usize)>)
    requires
        src.wf(),
        i <= src.s().len(),
    ensures
        match r {
            Some((sc, k)) => scope_word(src.s(), i as int) == Some((sc, k as int)) && k
                <= src.s().len(),
            None => scope_word(src.s(), i as int) is None,
        },
{
    if let Some(k) = p_keyword(src, i, "public") {
        return Some((Scope::Public, k));
    }
    if let Some(k) = p_keyword(src, i, "private") {
        return Some((Scope::Private, k));
    }
    if let Some(k) = p_keyword(src, i, "protected") {
        return Some((Scope::Protected, k));
    }
    if let Some(k) = p_keyword(src, i, "package") {
        return Some((Scope::Package, k));
    }
    None
}

pub fn parse_field(field: &str, description: Option<String>) -> (r: Result<LspField, GrammarError>)
    ensures
        match field_decl(field@) {
            Some((scope, key, t, eol)) => r matches Ok(f) && f.scope == scope && f.ident_type@
                == key && f.ty@ == t && opt_str_model(f.description) == or_desc(description, eol),
            None => r is Err,
        },
{
    let src = Source::new(field);
    let (scope, k0) = match p_scope_word(&src, 0) {
        Some((sc, k)) => (Some(sc), k),
        None => (None, 0),
    };
    let (key, k1) = match p_field_key(&src, k0) {
        Some(r) => r,
        None => return Err(GrammarError),
    };
    let (q, k2) = match p_tok(&src, k1, '?') {
        Some(k) => (true, k),
        None => (false, k1),
    };
    let k3 = match p_tok(&src, k2, ':') {
        Some(k) => k,
        None => k2,
    };
    match p_ty(&src, k3) {
        Some((t, k4)) => {
            let mut t = t;
            if q {
                t.make_nullable();
            }
            let eol = p_rest_of_line(&src, k4);
            let description = match description {
                Some(d) => Some(d),
                None => eol,
            };
            Ok(LspField { ident_type: key, ty: t, description, scope })
        },
        None => Err(GrammarError),
    }
}

pub fn parse_alias(alias: &str, description: Option<String>) -> (r: Result<Alias, GrammarError>)
    ensures
        match alias_decl(alias@) {
            Some((name, t, eol)) => r matches Ok(a) && a.name@ == name && a.description
                == description && match t {
                Some(t) => a.types@.len() == 1 && a.types@[0].0@ == t && opt_str_model(
                    a.types@[0].1,
                ) == eol,
                None => a.types@.len() == 0,
            },
            None => r is Err,
        },
{
    let src = Source::new(alias);
    match p_type_ident(&src, 0) {
        Some((j, k)) => {
            let name = src.slice(j, k);
            let mut types: Vec<(Type, Option<String>)> = Vec::new();
            match p_ty(&src, k) {
                Some((t, k2)) => {
                    let eol = p_rest_of_line(&src, k2);
                    types.push((t, eol));
                },
                None => {},
            }
            Ok(Alias { name, description, types })
        },
        None => Err(GrammarError),
    }
}

/// One more alternative of an alias, from a continuation line.
pub fn parse_alias_line(line: &str, description: Option<String>) -> (r: Result<
    (Type, Option<String>),
    GrammarError,
>)
    ensures
        match alias_line(line@) {
            Some((t, eol)) => r matches Ok((rt, d)) && rt@ == t && opt_str_model(d) == or_desc(
                description,
                eol,
            ),
            None => r is Err,
        },
{
    let src = Source::new(line);
    match p_ty(&src, 0) {
        Some((t, k)) => {
            let eol = p_rest_of_line(&src, k);
            let d = match description {
                Some(d) => Some(d),
                None => eol,
            };
            Ok((t, d))
        },
        None => Err(GrammarError),
    }
}

pub fn parse_param(param: &str) -> (r: Result<Param, GrammarError>)
    ensures
        match param_decl(param@) {
            Some((name, t, eol)) => r matches Ok(p) && p.name@ == name && p.ty@ == t
                && opt_str_model(p.description) == eol,
            None => r is Err,
        },
{
    let src = Source::new(param);
    let (j, k) = match p_ident(&src, 0) {
        Some(r) => r,
        None => return Err(GrammarError),
    };
    let (q, k2) = match p_tok(&src, k, '?') {
        Some(k1) => (true, k1),
        None => (false, k),
    };
    let k3 = match p_tok(&src, k2, ':') {
        Some(k1) => k1,
        None => k2,
    };
    match p_ty(&src, k3) {
        Some((t, k4)) => {
            let mut t = t;
            if q {
                t.make_nullable();
            }
            Ok(Param { name: src.slice(j, k), ty: t, description: p_rest_of_line(&src, k4) })
        },
        None => Err(GrammarError),
    }
}

pub fn parse_return(param: &str) -> (r: Result<Return, GrammarError>)
    ensures
        match return_decl(param@) {
            Some((name, t, eol)) => r matches Ok(ret) && opt_str_model(ret.name) == name && ret.ty@
                == t && opt_str_model(ret.description) == eol,
            None => r is Err,
        },
{
    let src = Source::new(param);
    match p_ret(&src, 0) {
        Some(((name, t), k)) => Ok(Return { name, ty: t, description: p_rest_of_line(&src, k) }),
        None => Err(GrammarError),
    }
}

pub fn parse_enum(en: &str, description: Option<String>) -> (r: Result<Enum, GrammarError>)
    ensures
        match enum_decl(en@) {
            Some((is_key, name)) => r matches Ok(e) && e.is_key == is_key && e.name@ == name
                && e.description == description && e.fields@.len() == 0,
            None => r is Err,
        },
{
    let src = Source::new(en);
    let (is_key, k) = match p_keyword(&src, 0, "key") {
        Some(k) => (true, k),
        None => (false, 0),
    };
    match p_type_ident(&src, k) {
        Some((j, k2)) => Ok(
            Enum { name: src.slice(j, k2), description, is_key, fields: Vec::new() },
        ),
        None => Err(GrammarError),
    }
}

fn p_word_end(src: &Source, i: usize) -> (r: usize)
    requires
        src.wf(),
        i <= src.s().len(),
    ensures
        r == word_end(src.s(), i as int),
        i <= r <= src.s().len(),
{
    let mut j = i;
    while j < src.chars.len() && !is_space_exec(src.chars[j])
        invariant
            src.wf(),
            i <= j <= src.s().len(),
            word_end(src.s(), i as int) == word_end(src.s(), j as int),
        decreases src.s().len() - j,
    {
        j = j + 1;
    }
    j
}

fn p_space_end(src: &Source, i: usize) -> (r: usize)
    requires
        src.wf(),
        i <= src.s().len(),
    ensures
        r == space_end(src.s(), i as int),
        i <= r <= src.s().len(),
{
    let mut j = i;
    while j < src.chars.len() && is_space_exec(src.chars[j])
        invariant
            src.wf(),
            i <= j <= src.s().len(),
            space_end(src.s(), i as int) == space_end(src.s(), j as int),
        decreases src.s().len() - j,
    {
        j = j + 1;
    }
    j
}

fn p_is_nodoc(src: &Source, j: usize, k: usize) -> (r: bool)
    requires
        src.wf(),
        j <= k <= src.s().len(),
    ensures
        r == is_nodoc(src.s().subrange(j as int, k as int)),
{
    let c = &src.chars;
    k - j == 5 && (c[j] == 'n' || c[j] == 'N') && (c[j + 1] == 'o' || c[j + 1] == 'O') && (c[j
        + 2] == 'd' || c[j + 2] == 'D') && (c[j + 3] == 'o' || c[j + 3] == 'O') && (c[j + 4]
        == 'c' || c[j + 4] == 'C')
}

/// The options of an `@lcat` tag: one `Nodoc` for each whitespace-separated
/// word that is `nodoc` in any ASCII case.
pub fn parse_lcat(lcat: &str) -> (r: Lcat)
    ensures
        r.options@ == Seq::new(nodoc_count(lcat@, 0), |i: int| LcatOption::Nodoc),
{
    let src = Source::new(lcat);
    let mut opts: Vec<LcatOption> = Vec::new();
    let mut i: usize = 0;
    while i < src.chars.len()
        invariant
            src.wf(),
            src.s() == lcat@,
            i <= src.s().len(),
            nodoc_count(lcat@, 0) == opts@.len() + nodoc_count(lcat@, i as int),
            forall|m: int| 0 <= m < opts@.len() ==> opts@[m] == LcatOption::Nodoc,
        decreases src.s().len() - i,
    {
        let j = p_space_end(&src, i);
        if j == src.chars.len() {
            i = j;
        } else {
            let k = p_word_end(&src, j);
            proof {
                lemma_space_end(lcat@, i as int);
                lemma_word_end(lcat@, j as int + 1);
            }
            if p_is_nodoc(&src, j, k) {
                opts.push(LcatOption::Nodoc);
            }
            i = k;
        }
    }
    proof {
        assert(i == lcat@.len());
        assert(space_end(lcat@, i as int) == i as int);
        assert(nodoc_count(lcat@, i as int) == 0);
        assert(opts@ =~= Seq::new(nodoc_count(lcat@, 0), |i: int| LcatOption::Nodoc));
    }
    Lcat { options: opts }
}

/// The payload of a `@type` tag: one whole type expression, with nothing
/// but whitespace after it.
pub open spec fn type_annotation(s: Seq<char>) -> Option<TypeModel> {
    match ty(s, 0) {
        Some((m, k)) => if skip_ws(s, k) == s.len() {
            Some(m)
        } else {
            None
        },
        None => None,
    }
}

/// The type of a `@type` tag; text left over after the type fails it.
pub fn parse_type_annotation(t: &str) -> (r: Result<Type, GrammarError>)
    ensures
        match type_annotation(t@) {
            Some(m) => r matches Ok(rt) && rt@ == m,
            None => r is Err,
        },
{
    parse_type(t)
}

/// A whole type expression: nothing but whitespace may follow it.
pub fn parse_type(t: &str) -> (r: Result<Type, GrammarError>)
    ensures
        match ty(t@, 0) {
            Some((m, k)) => if skip_ws(t@, k) == t@.len() {
                r matches Ok(rt) && rt@ == m
            } else {
                r is Err
            },
            None => r is Err,
        },
{
    let src = Source::new(t);
    match p_ty(&src, 0) {
        Some((rt, k)) => if p_skip_ws(&src, k) == src.chars.len() {
            Ok(rt)
        } else {
            Err(GrammarError)
        },
        None => Err(GrammarError),
    }
}

pub fn parse_see(see: &str) -> (r: Result<See, GrammarError>)
    ensures
        match see_decl(see@) {
            Some((name, eol)) => r matches Ok(x) && x.ident@ == name && opt_str_model(x.description)
                == eol,
            None => r is Err,
        },
{
    let src = Source::new(see);
    match p_type_ident(&src, 0) {
        Some((j, k)) => Ok(See { ident: src.slice(j, k), description: p_rest_of_line(&src, k) }),
        None => Err(GrammarError),
    }
}

impl Alias {
    pub fn add_type(&mut self, ty: Type, desc: Option<String>)
        ensures
            final(self).name == old(self).name,
            final(self).description == old(self).description,
            final(self).types@ == old(self).types@.push((ty, desc)),
    {
        self.types.push((ty, desc));
    }
}

// ---------------------------------------------------------------------------
// Class fields
// ---------------------------------------------------------------------------

pub struct ClassFieldModel {
    pub ident_type: TypeModel,
    pub ty: Option<TypeModel>,
    pub description: Option<Seq<char>>,
    pub scope: Option<Scope>,
    pub value: Option<Seq<char>>,
}

pub open spec fn class_field_model(f: ClassField) -> ClassFieldModel {
    ClassFieldModel {
        ident_type: f.ident_type@,
        ty: opt_type_model(f.ty),
        description: opt_str_model(f.description),
        scope: f.scope,
        value: opt_str_model(f.value),
    }
}

pub open spec fn class_fields_model(v: Seq<ClassField>) -> Seq<ClassFieldModel> {
    Seq::new(v.len(), |i: int| class_field_model(v[i]))
}

/// The entry that a `@field` tag gives.
pub open spec fn lsp_entry(f: LspField) -> ClassFieldModel {
    ClassFieldModel {
        ident_type: f.ident_type@,
        ty: Some(f.ty@),
        description: opt_str_model(f.description),
        scope: f.scope,
        value: None,
    }
}

/// The key type that stands for a field name.
pub open spec fn name_key(id: Seq<char>) -> TypeModel {
    bare(KindModel::Literal(LiteralModel::String(id)))
}

/// The first entry from `i` on whose key is `key`.
pub open spec fn find_key(acc: Seq<ClassFieldModel>, key: TypeModel, i: int) -> Option<int>
    decreases acc.len() - i,
{
    if 0 <= i < acc.len() {
        if acc[i].ident_type == key {
            Some(i)
        } else {
            find_key(acc, key, i + 1)
        }
    } else {
        None
    }
}

/// A structural field merged into the entries: into the first entry with its
/// name, which takes its value (and its description where it had none), or
/// else as a new entry; a field with a computed key is left out.
pub open spec fn merge_one(acc: Seq<ClassFieldModel>, t: TsField) -> Seq<ClassFieldModel> {
    match t.name {
        Some(FieldName::Ident(id)) => match find_key(acc, name_key(id@), 0) {
            Some(j) => acc.update(
                j,
                ClassFieldModel {
                    description: if acc[j].description is None {
                        opt_str_model(t.description)
                    } else {
                        acc[j].description
                    },
                    value: Some(t.value@),
                    ..acc[j]
                },
            ),
            None => acc.push(
                ClassFieldModel {
                    ident_type: name_key(id@),
                    ty: opt_type_model(t.ty),
                    description: opt_str_model(t.description),
                    scope: None,
                    value: Some(t.value@),
                },
            ),
        },
        _ => acc,
    }
}

pub open spec fn merge_all(acc: Seq<ClassFieldModel>, ts: Seq<TsField>) -> Seq<ClassFieldModel>
    decreases ts.len(),
{
    if ts.len() == 0 {
        acc
    } else {
        merge_one(merge_all(acc, ts.subrange(0, ts.len() - 1)), ts[ts.len() - 1])
    }
}

/// The fields of a class: those of its tags, in order, with the structural
/// fields merged in, in order.
pub open spec fn class_fields(c: Class) -> Seq<ClassFieldModel> {
    merge_all(Seq::new(c.lsp_fields@.len(), |i: int| lsp_entry(c.lsp_fields@[i])), c.ts_fields@)
}

fn copy_opt_string(o: &Option<String>) -> (r: Option<String>)
    ensures
        r == *o,
{
    match o {
        Some(x) => Some(x.clone()),
        None => None,
    }
}

/// Whether the type is the key that stands for the field name `id`.
fn is_name_key(t: &Type, id: &String) -> (r: bool)
    ensures
        r == (t@ == name_key(id@)),
{
    proof {
        lemma_types_model(t.generics@);
    }
    if t.nullable || t.generics.len() != 0 {
        return false;
    }
    match &t.inner {
        TypeInner::Literal(Literal::String(x)) => {
            proof {
                assert(t.generics@.len() == 0 ==> crate::types::types_model(t.generics@) =~= Seq::<
                    TypeModel,
                >::empty());
            }
            *x == *id
        },
        _ => false,
    }
}

impl Class {
    pub fn fields(&self) -> (r: Vec<ClassField>)
        ensures
            class_fields_model(r@) == class_fields(*self),
    {
        let mut fields: Vec<ClassField> = Vec::new();
        let ghost init = Seq::new(self.lsp_fields@.len(), |i: int| lsp_entry(self.lsp_fields@[i]));
        let mut i: usize = 0;
        while i < self.lsp_fields.len()
            invariant
                i <= self.lsp_fields@.len(),
                init == Seq::new(self.lsp_fields@.len(), |i: int| lsp_entry(self.lsp_fields@[i])),
                class_fields_model(fields@) == init.subrange(0, i as int),
            decreases self.lsp_fields@.len() - i,
        {
            let f = &self.lsp_fields[i];
            let cf = ClassField {
                ident_type: f.ident_type.duplicate(),
                ty: Some(f.ty.duplicate()),
                description: copy_opt_string(&f.description),
                scope: f.scope,
                value: None,
            };
            proof {
                assert(class_field_model(cf) == lsp_entry(*f));
            }
            let ghost f0 = fields@;
            fields.push(cf);
            proof {
                assert(class_fields_model(fields@) =~= class_fields_model(f0).push(lsp_entry(*f)));
                assert(init.subrange(0, i + 1) =~= init.subrange(0, i as int).push(lsp_entry(*f)));
            }
            i = i + 1;
        }
        proof {
            assert(init.subrange(0, i as int) =~= init);
            assert(merge_all(init, self.ts_fields@.subrange(0, 0)) == init);
        }
        let mut t: usize = 0;
        while t < self.ts_fields.len()
            invariant
                t <= self.ts_fields@.len(),
                class_fields_model(fields@) == merge_all(init, self.ts_fields@.subrange(0, t as int)),
                init == Seq::new(self.lsp_fields@.len(), |i: int| lsp_entry(self.lsp_fields@[i])),
            decreases self.ts_fields@.len() - t,
        {
            let ts = &self.ts_fields[t];
            let ghost acc = class_fields_model(fields@);
            proof {
                assert(self.ts_fields@.subrange(0, t + 1).subrange(0, t as int) =~= self.ts_fields@.subrange(
                    0,
                    t as int,
                ));
            }
            match &ts.name {
                Some(FieldName::Ident(id)) => {
                    let ghost key = name_key(id@);
                    let mut j: usize = 0;
                    let mut found = false;
                    while j < fields.len() && !found
                        invariant
                            j <= fields@.len(),
                            acc == class_fields_model(fields@),
                            find_key(acc, key, 0) == find_key(acc, key, j as int),
                            key == name_key(id@),
                            found ==> j < fields@.len() && acc[j as int].ident_type == key,
                        decreases fields@.len() - j, if found { 0int } else { 1int },
                    {
                        if is_name_key(&fields[j].ident_type, id) {
                            found = true;
                        } else {
                            j = j + 1;
                        }
                    }
                    if found {
                        let ghost f0 = fields@;
                        let mut cf = fields.remove(j);
                        if cf.description.is_none() {
                            cf.description = copy_opt_string(&ts.description);
                        }
                        cf.value = Some(ts.value.clone());
                        fields.insert(j, cf);
                        proof {
                            assert(find_key(acc, key, j as int) == Some(j as int));
                            assert(fields@ =~= f0.update(j as int, cf));
                            assert(class_fields_model(fields@) =~= merge_one(acc, *ts));
                        }
                    } else {
                        let ty = match &ts.ty {
                            Some(x) => Some(x.duplicate()),
                            None => None,
                        };
                        fields.push(
                            ClassField {
                                ident_type: Type::new(TypeInner::Literal(Literal::String(id.clone()))),
                                ty,
                                description: copy_opt_string(&ts.description),
                                scope: None,
                                value: Some(ts.value.clone()),
                            },
                        );
                        proof {
                            assert(class_fields_model(fields@) =~= merge_one(acc, *ts));
                        }
                    }
                },
                _ => {},
            }
            t = t + 1;
        }
        proof {
            assert(self.ts_fields@.subrange(0, t as int) =~= self.ts_fields@);
        }
        fields
    }
}

/// A field declared by a tag and a structural field of the same name merge
/// into one field: the tag's key, type and scope, with the structural
/// field's value.
pub proof fn lemma_field_merge(c: Class)
    requires
        c.lsp_fields@.len() == 1,
        c.ts_fields@.len() == 1,
        c.ts_fields@[0].name matches Some(FieldName::Ident(id)) && c.lsp_fields@[0].ident_type@
            == name_key(id@),
    ensures
        class_fields(c).len() == 1,
        class_fields(c)[0].ident_type == c.lsp_fields@[0].ident_type@,
        class_fields(c)[0].ty == Some(c.lsp_fields@[0].ty@),
        class_fields(c)[0].scope == c.lsp_fields@[0].scope,
        class_fields(c)[0].value == Some(c.ts_fields@[0].value@),
{
    let init = Seq::new(c.lsp_fields@.len(), |i: int| lsp_entry(c.lsp_fields@[i]));
    let ts = c.ts_fields@;
    assert(ts.subrange(0, 0) =~= Seq::<TsField>::empty());
    assert(merge_all(init, ts.subrange(0, 0)) == init);
    let id = match c.ts_fields@[0].name {
        Some(FieldName::Ident(id)) => id,
        _ => arbitrary(),
    };
    assert(find_key(init, name_key(id@), 0) == Some(0int));
}

} // verus!
