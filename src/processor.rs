//! The interpretation of annotation blocks into classes, aliases, enums and
//! functions.
use vstd::prelude::*;
use vstd::string::*;
use crate::annotation::{
    alias_decl, alias_line, class_decl, type_annotation, enum_decl, field_decl, nodoc_count, opt_type_model,
    param_decl, parse_alias, parse_alias_line, parse_class, parse_enum, parse_field, parse_lcat,
    parse_param, parse_return, parse_see, parse_tag_line, parse_type_annotation, piped_line,
    return_decl, see_decl, tag_line, Alias, Class, Enum, Function, LspField, Param, Return, Scope,
    See, TsField,
};
use crate::scanner::{field_name_model, strings_view};
use crate::types::TypeModel;
use crate::grammar::Source;
use crate::scanner::Block;
use crate::types::{opt_str_model, Type};

verus! {

broadcast use vstd::std_specs::vec::group_vec_axioms, vstd::string::group_string_axioms;

/// What the tag of an annotation line asks for.
pub enum Annotation {
    Class,
    Field,
    Alias,
    Param,
    Return,
    Enum,
    Lcat,
    Type,
    See,
    Unknown(String),
}

/// The annotation that a tag name stands for.
pub open spec fn annotation_is(a: Annotation, name: Seq<char>) -> bool {
    match a {
        Annotation::Class => name == "class"@,
        Annotation::Field => name == "field"@,
        Annotation::Alias => name == "alias"@,
        Annotation::Param => name == "param"@,
        Annotation::Return => name == "return"@,
        Annotation::Enum => name == "enum"@,
        Annotation::Lcat => name == "lcat"@,
        Annotation::Type => name == "type"@,
        Annotation::See => name == "see"@,
        Annotation::Unknown(u) => u@ == name && name != "class"@ && name != "field"@ && name
            != "alias"@ && name != "param"@ && name != "return"@ && name != "enum"@ && name
            != "lcat"@ && name != "type"@ && name != "see"@,
    }
}

fn str_eq(a: &String, b: &str) -> (r: bool)
    ensures
        r == (a@ == b@),
{
    let src = Source::new(a.as_str());
    proof {
        assert(src.s().subrange(0, src.s().len() as int) =~= a@);
    }
    crate::grammar::p_text_is(&src, 0, src.chars.len(), b)
}

/// The annotation of a line of the form `@tag rest`, and the rest.
pub fn try_parse_annotation(line: &str) -> (r: Option<(Annotation, String)>)
    ensures
        match tag_line(line@) {
            Some((name, rest)) => r matches Some((a, s)) && annotation_is(a, name) && s@ == rest,
            None => r is None,
        },
{
    let (name, rest) = match parse_tag_line(line) {
        Some(x) => x,
        None => return None,
    };
    let a = if str_eq(&name, "class") {
        Annotation::Class
    } else if str_eq(&name, "field") {
        Annotation::Field
    } else if str_eq(&name, "alias") {
        Annotation::Alias
    } else if str_eq(&name, "param") {
        Annotation::Param
    } else if str_eq(&name, "return") {
        Annotation::Return
    } else if str_eq(&name, "enum") {
        Annotation::Enum
    } else if str_eq(&name, "lcat") {
        Annotation::Lcat
    } else if str_eq(&name, "type") {
        Annotation::Type
    } else if str_eq(&name, "see") {
        Annotation::See
    } else {
        Annotation::Unknown(name)
    };
    Some((a, rest))
}

/// For a continuation line of an alias (`| rest`), what follows the bar.
pub fn try_parse_alias_line(line: &str) -> (r: Option<Option<String>>)
    ensures
        match piped_line(line@) {
            Some(rest) => r matches Some(x) && opt_str_model(x) == rest,
            None => r is None,
        },
{
    let src = Source::new(line);
    match crate::grammar::p_tok(&src, 0, '|') {
        Some(k) => Some(crate::annotation::p_rest_of_line(&src, k)),
        None => None,
    }
}

// ---------------------------------------------------------------------------
// Table names
// ---------------------------------------------------------------------------

/// Which class each table name was declared as; a later entry for a name
/// replaces an earlier one.
pub struct TableClassMap {
    pub entries: Vec<(String, String)>,
}

pub open spec fn entries_map(s: Seq<(String, String)>) -> Map<Seq<char>, Seq<char>>
    decreases s.len(),
{
    if s.len() == 0 {
        Map::empty()
    } else {
        entries_map(s.subrange(0, s.len() - 1)).insert(s[s.len() - 1].0@, s[s.len() - 1].1@)
    }
}

impl View for TableClassMap {
    type V = Map<Seq<char>, Seq<char>>;

    open spec fn view(&self) -> Map<Seq<char>, Seq<char>> {
        entries_map(self.entries@)
    }
}

impl TableClassMap {
    pub fn new() -> (r: TableClassMap)
        ensures
            r@ == Map::<Seq<char>, Seq<char>>::empty(),
    {
        TableClassMap { entries: Vec::new() }
    }

    pub fn insert(&mut self, table: String, class: String)
        ensures
            final(self)@ == old(self)@.insert(table@, class@),
    {
        let ghost e0 = self.entries@;
        self.entries.push((table, class));
        proof {
            assert(self.entries@.subrange(0, e0.len() as int) =~= e0);
        }
    }

    pub fn get(&self, table: &String) -> (r: Option<String>)
        ensures
            match r {
                Some(c) => self@.contains_key(table@) && self@[table@] == c@,
                None => !self@.contains_key(table@),
            },
    {
        let mut i = self.entries.len();
        proof {
            assert(self.entries@.subrange(0, i as int) =~= self.entries@);
        }
        while i > 0
            invariant
                i <= self.entries@.len(),
                entries_map(self.entries@).contains_key(table@) == entries_map(
                    self.entries@.subrange(0, i as int),
                ).contains_key(table@),
                entries_map(self.entries@).contains_key(table@) ==> entries_map(self.entries@)[table@]
                    == entries_map(self.entries@.subrange(0, i as int))[table@],
            decreases i,
        {
            let ghost pre = self.entries@.subrange(0, i - 1);
            proof {
                assert(self.entries@.subrange(0, i as int).subrange(0, i - 1) =~= pre);
            }
            if self.entries[i - 1].0 == *table {
                return Some(self.entries[i - 1].1.clone());
            }
            i = i - 1;
        }
        proof {
            assert(self.entries@.subrange(0, 0) =~= Seq::<(String, String)>::empty());
        }
        None
    }
}

// ---------------------------------------------------------------------------
// The interpreter
// ---------------------------------------------------------------------------

/// The entities found so far.
pub struct Processor {
    pub classes: Vec<Class>,
    pub aliases: Vec<Alias>,
    pub functions: Vec<Function>,
    pub enums: Vec<Enum>,
    /// Which class each table name was declared as, for the whole run.
    pub table_classes: TableClassMap,
}

/// The class or enum whose table body is being read.
pub enum Owner {
    Class(Class),
    Enum(Enum),
}

/// The declaration in progress within a block.
pub enum Pending {
    Nothing,
    Class(Class),
    Alias(Alias),
    Enum(Enum),
    Type(Type),
}

/// What a block documents, apart from its annotation lines.
pub enum Shape {
    Table(String, Vec<Block>),
    Field(Option<crate::scanner::FieldName>, String),
    Function(Option<String>, String, bool),
    Free,
}

pub open spec fn owner_kind(o: Option<Owner>) -> int {
    match o {
        None => 0,
        Some(Owner::Class(_)) => 1,
        Some(Owner::Enum(_)) => 2,
    }
}

fn replace_pending(p: &mut Pending, next: Pending) -> (r: Pending)
    ensures
        *final(p) == next,
        r == *old(p),
{
    let mut next = next;
    std::mem::swap(p, &mut next);
    next
}

/// The lines of a description joined by newlines.
pub open spec fn join_lines(ls: Seq<Seq<char>>) -> Seq<char>
    decreases ls.len(),
{
    if ls.len() == 0 {
        Seq::empty()
    } else if ls.len() == 1 {
        ls[0]
    } else {
        join_lines(ls.subrange(0, ls.len() - 1)) + "\n"@ + ls[ls.len() - 1]
    }
}

pub open spec fn description_of(ls: Seq<String>) -> Option<Seq<char>> {
    if ls.len() == 0 {
        None
    } else {
        Some(join_lines(Seq::new(ls.len(), |i: int| ls[i]@)))
    }
}

/// The description that the plain lines before a tag give, if any.
pub fn description(lines: &Vec<String>) -> (r: Option<String>)
    ensures
        opt_str_model(r) == description_of(lines@),
{
    if lines.len() == 0 {
        return None;
    }
    let ghost ls = Seq::new(lines@.len(), |i: int| lines@[i]@);
    let mut out = lines[0].clone();
    let mut i: usize = 1;
    proof {
        assert(ls.subrange(0, 1) =~= seq![lines@[0]@]);
    }
    while i < lines.len()
        invariant
            1 <= i <= lines@.len(),
            ls == Seq::new(lines@.len(), |i: int| lines@[i]@),
            out@ == join_lines(ls.subrange(0, i as int)),
        decreases lines@.len() - i,
    {
        out.append("\n");
        out.append(lines[i].as_str());
        proof {
            assert(ls.subrange(0, i + 1).subrange(0, i as int) =~= ls.subrange(0, i as int));
        }
        i = i + 1;
    }
    proof {
        assert(ls.subrange(0, lines@.len() as int) =~= ls);
    }
    Some(out)
}

/// The owner of a function: its table, renamed to the class declared on it,
/// and within a class's table body, qualified by that class.
pub open spec fn function_owner(
    table: Option<Seq<char>>,
    map: Map<Seq<char>, Seq<char>>,
    parent_class: Option<Seq<char>>,
) -> Option<Seq<char>> {
    let resolved = match table {
        Some(t) => if map.contains_key(t) {
            Some(map[t])
        } else {
            Some(t)
        },
        None => None,
    };
    match parent_class {
        Some(c) => match resolved {
            Some(t) => Some(t + "."@ + c),
            None => Some(c),
        },
        None => resolved,
    }
}

pub open spec fn block_lines(b: Block) -> Seq<String> {
    match b {
        Block::Table(t) => t.annotations@,
        Block::Field(f) => f.annotations@,
        Block::Function(f) => f.annotations@,
        Block::Free(f) => f.annotations@,
    }
}

/// The block's `@lcat nodoc` line comes before any other tag.
pub open spec fn nodoc_first(lines: Seq<String>) -> bool {
    exists|k: int|
        0 <= k < lines.len() && is_nodoc_line(lines[k]@) && forall|j: int|
            0 <= j < k ==> tag_line(#[trigger] lines[j]@) is None
}

pub open spec fn is_nodoc_line(l: Seq<char>) -> bool {
    match tag_line(l) {
        Some((name, rest)) => name == "lcat"@ && crate::annotation::nodoc_count(rest, 0) > 0,
        None => false,
    }
}

/// `b` starts with `a`.
pub open spec fn extends<T>(a: Seq<T>, b: Seq<T>) -> bool {
    a.len() <= b.len() && b.subrange(0, a.len() as int) == a
}

/// Every entity of `a` is in `b`, unchanged and at the same place.
pub open spec fn keeps(a: Processor, b: Processor) -> bool {
    &&& extends(a.classes@, b.classes@)
    &&& extends(a.aliases@, b.aliases@)
    &&& extends(a.functions@, b.functions@)
    &&& extends(a.enums@, b.enums@)
}

pub proof fn lemma_keeps_refl(a: Processor)
    ensures
        keeps(a, a),
{
    assert(a.classes@.subrange(0, a.classes@.len() as int) =~= a.classes@);
    assert(a.aliases@.subrange(0, a.aliases@.len() as int) =~= a.aliases@);
    assert(a.functions@.subrange(0, a.functions@.len() as int) =~= a.functions@);
    assert(a.enums@.subrange(0, a.enums@.len() as int) =~= a.enums@);
}

pub proof fn lemma_extends_trans<T>(a: Seq<T>, b: Seq<T>, c: Seq<T>)
    requires
        extends(a, b),
        extends(b, c),
    ensures
        extends(a, c),
{
    assert(c.subrange(0, a.len() as int) =~= c.subrange(0, b.len() as int).subrange(
        0,
        a.len() as int,
    ));
}

pub proof fn lemma_keeps_trans(a: Processor, b: Processor, c: Processor)
    requires
        keeps(a, b),
        keeps(b, c),
    ensures
        keeps(a, c),
{
    lemma_extends_trans(a.classes@, b.classes@, c.classes@);
    lemma_extends_trans(a.aliases@, b.aliases@, c.aliases@);
    lemma_extends_trans(a.functions@, b.functions@, c.functions@);
    lemma_extends_trans(a.enums@, b.enums@, c.enums@);
}

pub proof fn lemma_extends_push<T>(a: Seq<T>, x: T)
    ensures
        extends(a, a.push(x)),
{
    assert(a.push(x).subrange(0, a.len() as int) =~= a);
}

// ---------------------------------------------------------------------------
// Models of the entities
// ---------------------------------------------------------------------------

/// A field of a `@field` tag: key, type, description, scope.
pub type LspFieldM = (TypeModel, TypeModel, Option<Seq<char>>, Option<Scope>);

/// A structural field: name, type from `@type`, description, value text.
pub type TsFieldM = (Option<(bool, Seq<char>)>, Option<TypeModel>, Option<Seq<char>>, Seq<char>);

/// A parameter: name, type, description.
pub type ParamM = (Seq<char>, TypeModel, Option<Seq<char>>);

/// A return: name, type, description.
pub type ReturnM = (Option<Seq<char>>, TypeModel, Option<Seq<char>>);

/// A cross-reference: the name referred to, description.
pub type SeeM = (Seq<char>, Option<Seq<char>>);

pub struct ClassM {
    pub name: Seq<char>,
    pub description: Option<Seq<char>>,
    pub exact: bool,
    pub parent: Option<TypeModel>,
    pub lsp_fields: Seq<LspFieldM>,
    pub ts_fields: Seq<TsFieldM>,
}

pub struct AliasM {
    pub name: Seq<char>,
    pub description: Option<Seq<char>>,
    pub types: Seq<(TypeModel, Option<Seq<char>>)>,
}

pub struct EnumM {
    pub name: Seq<char>,
    pub description: Option<Seq<char>>,
    pub is_key: bool,
    pub fields: Seq<TsFieldM>,
}

pub struct FunctionM {
    pub name: Seq<char>,
    pub table: Option<Seq<char>>,
    pub params: Seq<ParamM>,
    pub returns: Seq<ReturnM>,
    pub sees: Seq<SeeM>,
    pub is_method: bool,
    pub description: Option<Seq<char>>,
}

/// The entities found so far, as plain values.
pub struct ProcM {
    pub classes: Seq<ClassM>,
    pub aliases: Seq<AliasM>,
    pub enums: Seq<EnumM>,
    pub functions: Seq<FunctionM>,
}

pub enum PendingM {
    Nothing,
    Class(ClassM),
    Alias(AliasM),
    Enum(EnumM),
    Type(TypeModel),
}

pub enum OwnerM {
    Class(ClassM),
    Enum(EnumM),
}

pub open spec fn lsp_m(f: LspField) -> LspFieldM {
    (f.ident_type@, f.ty@, opt_str_model(f.description), f.scope)
}

pub open spec fn ts_m(f: TsField) -> TsFieldM {
    (field_name_model(f.name), opt_type_model(f.ty), opt_str_model(f.description), f.value@)
}

pub open spec fn class_m(c: Class) -> ClassM {
    ClassM {
        name: c.name@,
        description: opt_str_model(c.description),
        exact: c.exact,
        parent: opt_type_model(c.parent),
        lsp_fields: Seq::new(c.lsp_fields@.len(), |i: int| lsp_m(c.lsp_fields@[i])),
        ts_fields: Seq::new(c.ts_fields@.len(), |i: int| ts_m(c.ts_fields@[i])),
    }
}

pub open spec fn alias_m(a: Alias) -> AliasM {
    AliasM {
        name: a.name@,
        description: opt_str_model(a.description),
        types: Seq::new(a.types@.len(), |i: int| (a.types@[i].0@, opt_str_model(a.types@[i].1))),
    }
}

pub open spec fn enum_m(e: Enum) -> EnumM {
    EnumM {
        name: e.name@,
        description: opt_str_model(e.description),
        is_key: e.is_key,
        fields: Seq::new(e.fields@.len(), |i: int| ts_m(e.fields@[i])),
    }
}

pub open spec fn param_m(p: Param) -> ParamM {
    (p.name@, p.ty@, opt_str_model(p.description))
}

pub open spec fn return_m(r: Return) -> ReturnM {
    (opt_str_model(r.name), r.ty@, opt_str_model(r.description))
}

pub open spec fn see_m(s: See) -> SeeM {
    (s.ident@, opt_str_model(s.description))
}

pub open spec fn params_m(v: Seq<Param>) -> Seq<ParamM> {
    Seq::new(v.len(), |i: int| param_m(v[i]))
}

pub open spec fn returns_m(v: Seq<Return>) -> Seq<ReturnM> {
    Seq::new(v.len(), |i: int| return_m(v[i]))
}

pub open spec fn sees_m(v: Seq<See>) -> Seq<SeeM> {
    Seq::new(v.len(), |i: int| see_m(v[i]))
}

pub open spec fn function_m(f: Function) -> FunctionM {
    FunctionM {
        name: f.name@,
        table: opt_str_model(f.table),
        params: params_m(f.params@),
        returns: returns_m(f.returns@),
        sees: sees_m(f.sees@),
        is_method: f.is_method,
        description: opt_str_model(f.description),
    }
}

pub open spec fn proc_m(p: Processor) -> ProcM {
    ProcM {
        classes: Seq::new(p.classes@.len(), |i: int| class_m(p.classes@[i])),
        aliases: Seq::new(p.aliases@.len(), |i: int| alias_m(p.aliases@[i])),
        enums: Seq::new(p.enums@.len(), |i: int| enum_m(p.enums@[i])),
        functions: Seq::new(p.functions@.len(), |i: int| function_m(p.functions@[i])),
    }
}

pub open spec fn pending_m(p: Pending) -> PendingM {
    match p {
        Pending::Nothing => PendingM::Nothing,
        Pending::Class(c) => PendingM::Class(class_m(c)),
        Pending::Alias(a) => PendingM::Alias(alias_m(a)),
        Pending::Enum(e) => PendingM::Enum(enum_m(e)),
        Pending::Type(t) => PendingM::Type(t@),
    }
}

pub open spec fn owner_m(o: Option<Owner>) -> Option<OwnerM> {
    match o {
        Some(Owner::Class(c)) => Some(OwnerM::Class(class_m(c))),
        Some(Owner::Enum(e)) => Some(OwnerM::Enum(enum_m(e))),
        None => None,
    }
}

// ---------------------------------------------------------------------------
// What a block does
// ---------------------------------------------------------------------------

/// The state while the lines of a block are read.
pub struct LineState {
    pub pending: PendingM,
    pub doc: Seq<Seq<char>>,
    pub nodoc: bool,
    pub params: Seq<ParamM>,
    pub returns: Seq<ReturnM>,
    pub sees: Seq<SeeM>,
    pub found: ProcM,
}

pub open spec fn start(p: ProcM) -> LineState {
    LineState {
        pending: PendingM::Nothing,
        doc: Seq::empty(),
        nodoc: false,
        params: Seq::empty(),
        returns: Seq::empty(),
        sees: Seq::empty(),
        found: p,
    }
}

/// The description that plain lines give: the lines joined by newlines.
pub open spec fn desc_m(doc: Seq<Seq<char>>) -> Option<Seq<char>> {
    if doc.len() == 0 {
        None
    } else {
        Some(join_lines(doc))
    }
}

pub open spec fn or_desc_m(d: Option<Seq<char>>, eol: Option<Seq<char>>) -> Option<Seq<char>> {
    match d {
        Some(x) => Some(x),
        None => eol,
    }
}

/// The pending declaration added to the entities found.
pub open spec fn commit_m(p: ProcM, pend: PendingM) -> ProcM {
    match pend {
        PendingM::Class(c) => ProcM { classes: p.classes.push(c), ..p },
        PendingM::Alias(a) => ProcM { aliases: p.aliases.push(a), ..p },
        PendingM::Enum(e) => ProcM { enums: p.enums.push(e), ..p },
        _ => p,
    }
}

/// A new declaration: the pending one is committed and the function
/// annotations so far are dropped.
pub open spec fn declare(st: LineState, pend: PendingM) -> LineState {
    LineState {
        pending: pend,
        found: commit_m(st.found, st.pending),
        params: Seq::empty(),
        returns: Seq::empty(),
        sees: Seq::empty(),
        ..st
    }
}

/// A plain line: a further type of the pending alias where it has the form
/// `| type`, else a line of description.
pub open spec fn plain_step(st: LineState, line: Seq<char>) -> LineState {
    match st.pending {
        PendingM::Alias(a) => match piped_line(line) {
            Some(rest) => match rest {
                Some(r) => match alias_line(r) {
                    Some((t, eol)) => LineState {
                        doc: Seq::empty(),
                        pending: if st.nodoc {
                            st.pending
                        } else {
                            PendingM::Alias(
                                AliasM {
                                    types: a.types.push((t, or_desc_m(desc_m(st.doc), eol))),
                                    ..a
                                },
                            )
                        },
                        ..st
                    },
                    None => st,
                },
                None => st,
            },
            None => LineState { doc: st.doc.push(line), ..st },
        },
        _ => LineState { doc: st.doc.push(line), ..st },
    }
}

/// A tag line with its tag's name and payload.
pub open spec fn tag_step(st: LineState, name: Seq<char>, payload: Seq<char>) -> LineState {
    let cleared = LineState { doc: Seq::empty(), ..st };
    if name == "class"@ {
        match class_decl(payload) {
            Some((exact, n, parent)) => if st.nodoc {
                cleared
            } else {
                declare(
                    cleared,
                    PendingM::Class(
                        ClassM {
                            name: n,
                            description: desc_m(st.doc),
                            exact,
                            parent,
                            lsp_fields: Seq::empty(),
                            ts_fields: Seq::empty(),
                        },
                    ),
                )
            },
            None => st,
        }
    } else if name == "field"@ {
        match st.pending {
            PendingM::Class(c) => match field_decl(payload) {
                Some((scope, key, t, eol)) => if st.nodoc {
                    cleared
                } else {
                    LineState {
                        pending: PendingM::Class(
                            ClassM {
                                lsp_fields: c.lsp_fields.push(
                                    (key, t, or_desc_m(desc_m(st.doc), eol), scope),
                                ),
                                ..c
                            },
                        ),
                        params: Seq::empty(),
                        returns: Seq::empty(),
                        sees: Seq::empty(),
                        ..cleared
                    }
                },
                None => st,
            },
            _ => st,
        }
    } else if name == "alias"@ {
        match alias_decl(payload) {
            Some((n, t, eol)) => if st.nodoc {
                cleared
            } else {
                declare(
                    cleared,
                    PendingM::Alias(
                        AliasM {
                            name: n,
                            description: desc_m(st.doc),
                            types: match t {
                                Some(t) => seq![(t, eol)],
                                None => Seq::empty(),
                            },
                        },
                    ),
                )
            },
            None => st,
        }
    } else if name == "enum"@ {
        match enum_decl(payload) {
            Some((is_key, n)) => if st.nodoc {
                cleared
            } else {
                declare(
                    cleared,
                    PendingM::Enum(
                        EnumM { name: n, description: desc_m(st.doc), is_key, fields: Seq::empty() },
                    ),
                )
            },
            None => st,
        }
    } else if name == "type"@ {
        match type_annotation(payload) {
            Some(t) => if st.nodoc {
                st
            } else {
                declare(st, PendingM::Type(t))
            },
            None => st,
        }
    } else if name == "param"@ {
        match param_decl(payload) {
            Some(x) => if st.nodoc {
                st
            } else {
                LineState {
                    params: st.params.push(x),
                    pending: PendingM::Nothing,
                    found: commit_m(st.found, st.pending),
                    ..st
                }
            },
            None => st,
        }
    } else if name == "return"@ {
        match return_decl(payload) {
            Some(x) => if st.nodoc {
                st
            } else {
                LineState {
                    returns: st.returns.push(x),
                    pending: PendingM::Nothing,
                    found: commit_m(st.found, st.pending),
                    ..st
                }
            },
            None => st,
        }
    } else if name == "see"@ {
        match see_decl(payload) {
            Some(x) => if st.nodoc {
                st
            } else {
                LineState {
                    sees: st.sees.push(x),
                    pending: PendingM::Nothing,
                    found: commit_m(st.found, st.pending),
                    ..st
                }
            },
            None => st,
        }
    } else if name == "lcat"@ {
        if nodoc_count(payload, 0) > 0 {
            LineState { nodoc: true, ..st }
        } else {
            st
        }
    } else {
        st
    }
}

/// One annotation line read: a tag where the line has one, else a plain
/// line. A payload that does not parse leaves the state as it was.
pub open spec fn step(st: LineState, line: Seq<char>) -> LineState {
    match tag_line(line) {
        Some((name, payload)) => tag_step(st, name, payload),
        None => plain_step(st, line),
    }
}

pub open spec fn run_lines(st: LineState, lines: Seq<Seq<char>>) -> LineState
    decreases lines.len(),
{
    if lines.len() == 0 {
        st
    } else {
        step(run_lines(st, lines.subrange(0, lines.len() - 1)), lines[lines.len() - 1])
    }
}

/// The owner with one more structural field.
pub open spec fn add_ts_field(o: Option<OwnerM>, f: TsFieldM) -> Option<OwnerM> {
    match o {
        Some(OwnerM::Class(c)) => Some(OwnerM::Class(ClassM { ts_fields: c.ts_fields.push(f), ..c })),
        Some(OwnerM::Enum(e)) => Some(OwnerM::Enum(EnumM { fields: e.fields.push(f), ..e })),
        None => None,
    }
}

pub open spec fn owner_class_name(o: Option<OwnerM>) -> Option<Seq<char>> {
    match o {
        Some(OwnerM::Class(c)) => Some(c.name),
        _ => None,
    }
}

/// The owner of a table body committed once its blocks are read.
pub open spec fn commit_owner(p: ProcM, o: Option<OwnerM>) -> ProcM {
    match o {
        Some(OwnerM::Class(c)) => commit_m(p, PendingM::Class(c)),
        Some(OwnerM::Enum(e)) => commit_m(p, PendingM::Enum(e)),
        None => p,
    }
}

/// The end of a block that declares no table owner: the pending declaration
/// is committed and a documented function is added.
pub open spec fn plain_finish(
    st: LineState,
    pend: PendingM,
    b: Block,
    parent: Option<OwnerM>,
    m: Map<Seq<char>, Seq<char>>,
) -> ProcM {
    let p2 = commit_m(st.found, pend);
    match b {
        Block::Function(fb) => ProcM {
            functions: p2.functions.push(
                FunctionM {
                    name: fb.name@,
                    table: function_owner(opt_str_model(fb.table), m, owner_class_name(parent)),
                    params: st.params,
                    returns: st.returns,
                    sees: st.sees,
                    is_method: fb.is_method,
                    description: desc_m(st.doc),
                },
            ),
            ..p2
        },
        _ => p2,
    }
}

/// What a block does to the entities found, to the class or enum whose
/// table body holds it, and to the table-to-class map.
///
/// Its lines are read in order. A block with `@lcat nodoc` adds nothing
/// after that line. A field block adds a structural field to its owner, with
/// the pending `@type` as its type. A class or enum declared on a table reads
/// the table's blocks as their owner before it is committed, and a class maps
/// the table's name to its own. A function block adds the function.
pub open spec fn block_effect(
    p: ProcM,
    b: Block,
    parent: Option<OwnerM>,
    m: Map<Seq<char>, Seq<char>>,
) -> (ProcM, Option<OwnerM>, Map<Seq<char>, Seq<char>>)
    decreases b, 1int,
{
    let st = run_lines(start(p), strings_view(block_lines(b)));
    if st.nodoc {
        (st.found, parent, m)
    } else {
        let (pend, par) = match b {
            Block::Field(fb) => (
                if st.pending is Type {
                    PendingM::Nothing
                } else {
                    st.pending
                },
                add_ts_field(
                    parent,
                    (
                        field_name_model(fb.name),
                        match st.pending {
                            PendingM::Type(t) => Some(t),
                            _ => None,
                        },
                        desc_m(st.doc),
                        fb.value@,
                    ),
                ),
            ),
            _ => (st.pending, parent),
        };
        match b {
            Block::Table(tb) => match pend {
                PendingM::Class(c) => {
                    let (p2, o, m2) = children_effect(
                        st.found,
                        tb.fields@,
                        Some(OwnerM::Class(c)),
                        m.insert(tb.name@, c.name),
                    );
                    (commit_owner(p2, o), par, m2)
                },
                PendingM::Enum(e) => {
                    let (p2, o, m2) = children_effect(st.found, tb.fields@, Some(OwnerM::Enum(e)), m);
                    (commit_owner(p2, o), par, m2)
                },
                _ => (plain_finish(st, pend, b, parent, m), par, m),
            },
            _ => (plain_finish(st, pend, b, parent, m), par, m),
        }
    }
}

/// The blocks of a table body read in order with `o` as their owner.
pub open spec fn children_effect(
    p: ProcM,
    bs: Seq<Block>,
    o: Option<OwnerM>,
    m: Map<Seq<char>, Seq<char>>,
) -> (ProcM, Option<OwnerM>, Map<Seq<char>, Seq<char>>)
    decreases bs, 0int,
{
    if bs.len() == 0 {
        (p, o, m)
    } else {
        let (p1, o1, m1) = children_effect(p, bs.subrange(0, bs.len() - 1), o, m);
        block_effect(p1, bs[bs.len() - 1], o1, m1)
    }
}

/// Blocks read in order at the outermost level.
pub open spec fn run_effect(p: ProcM, bs: Seq<Block>, m: Map<Seq<char>, Seq<char>>) -> (
    ProcM,
    Map<Seq<char>, Seq<char>>,
)
    decreases bs.len(),
{
    if bs.len() == 0 {
        (p, m)
    } else {
        let (p1, m1) = run_effect(p, bs.subrange(0, bs.len() - 1), m);
        let (p2, _, m2) = block_effect(p1, bs[bs.len() - 1], None, m1);
        (p2, m2)
    }
}

/// The state after the lines of a block are read.
pub open spec fn lines_read(p: ProcM, b: Block) -> LineState {
    run_lines(start(p), strings_view(block_lines(b)))
}

/// A class declared on a table with an empty body maps the table's name to
/// the class.
pub proof fn lemma_class_maps_table(
    p: ProcM,
    b: Block,
    parent: Option<OwnerM>,
    m: Map<Seq<char>, Seq<char>>,
)
    requires
        b is Table,
        (b->Table_0).fields@.len() == 0,
        !lines_read(p, b).nodoc,
        lines_read(p, b).pending is Class,
    ensures
        block_effect(p, b, parent, m).2 == m.insert(
            (b->Table_0).name@,
            (lines_read(p, b).pending->Class_0).name,
        ),
{
}

/// A documented function on a table that is mapped to a class, outside any
/// table body, gets that class as its owner.
pub proof fn lemma_function_takes_class(p: ProcM, b: Block, m: Map<Seq<char>, Seq<char>>)
    requires
        b is Function,
        !lines_read(p, b).nodoc,
        (b->Function_0).table matches Some(t) && m.contains_key(t@),
    ensures
        ({
            let fs = block_effect(p, b, None, m).0.functions;
            &&& fs.len() > 0
            &&& fs[fs.len() - 1].name == (b->Function_0).name@
            &&& fs[fs.len() - 1].table == Some(m[(b->Function_0).table->0@])
        }),
{
}

/// A class declared on table `M`, then a documented function on `M`: the
/// function's owner is the class. The map lasts for the whole run, so this
/// holds across calls of `process_blocks` too.
#[verifier::rlimit(100)]
pub proof fn lemma_table_then_function(
    p: ProcM,
    bt: Block,
    bf: Block,
    m: Map<Seq<char>, Seq<char>>,
)
    requires
        bt is Table,
        (bt->Table_0).fields@.len() == 0,
        !lines_read(p, bt).nodoc,
        lines_read(p, bt).pending is Class,
        bf is Function,
        !lines_read(block_effect(p, bt, None, m).0, bf).nodoc,
        (bf->Function_0).table matches Some(t) && t@ == (bt->Table_0).name@,
    ensures
        ({
            let fs = run_effect(p, seq![bt, bf], m).0.functions;
            &&& fs.len() > 0
            &&& fs[fs.len() - 1].name == (bf->Function_0).name@
            &&& fs[fs.len() - 1].table == Some((lines_read(p, bt).pending->Class_0).name)
        }),
{
    let bs = seq![bt, bf];
    let e1 = block_effect(p, bt, None, m);
    lemma_class_maps_table(p, bt, None, m);
    lemma_function_takes_class(e1.0, bf, e1.2);
    assert(bs.subrange(0, 1) =~= seq![bt]);
    assert(seq![bt].subrange(0, 0) =~= Seq::<Block>::empty());
    assert(run_effect(p, Seq::<Block>::empty(), m) == (p, m));
    assert(seq![bt][0] == bt);
    assert(seq![bt].len() == 1);
    assert(run_effect(p, seq![bt], m) == (e1.0, e1.2));
    assert(bs[1] == bf);
    assert(run_effect(p, bs, m).0 == block_effect(e1.0, bf, None, e1.2).0);
}

/// Plain lines before any tag leave the entities, the pending declaration
/// and the nodoc flag as they were.
proof fn lemma_nodoc_before(p: ProcM, ls: Seq<Seq<char>>, k: int, n: int)
    requires
        0 <= n <= k <= ls.len(),
        forall|j: int| 0 <= j < k ==> tag_line(#[trigger] ls[j]) is None,
    ensures
        run_lines(start(p), ls.subrange(0, n)).found == p,
        run_lines(start(p), ls.subrange(0, n)).pending is Nothing,
        !run_lines(start(p), ls.subrange(0, n)).nodoc,
    decreases n,
{
    if n > 0 {
        lemma_nodoc_before(p, ls, k, n - 1);
        assert(ls.subrange(0, n).subrange(0, n - 1) =~= ls.subrange(0, n - 1));
    }
}

/// Once a block is marked nodoc, it stays so and adds nothing.
proof fn lemma_nodoc_stays(st: LineState, l: Seq<char>)
    requires
        st.nodoc,
    ensures
        step(st, l).nodoc,
        step(st, l).found == st.found,
{
    lemma_tag_names();
}

proof fn lemma_nodoc_after(p: ProcM, ls: Seq<Seq<char>>, k: int, n: int)
    requires
        0 <= k < n <= ls.len(),
        forall|j: int| 0 <= j < k ==> tag_line(#[trigger] ls[j]) is None,
        is_nodoc_line(ls[k]),
    ensures
        run_lines(start(p), ls.subrange(0, n)).found == p,
        run_lines(start(p), ls.subrange(0, n)).nodoc,
    decreases n,
{
    assert(ls.subrange(0, n).subrange(0, n - 1) =~= ls.subrange(0, n - 1));
    if n == k + 1 {
        lemma_nodoc_before(p, ls, k, k);
        lemma_tag_names();
    } else {
        lemma_nodoc_after(p, ls, k, n - 1);
        lemma_nodoc_stays(run_lines(start(p), ls.subrange(0, n - 1)), ls[n - 1]);
    }
}

/// A block whose `@lcat nodoc` comes before its other tags contributes
/// nothing: no class, alias, enum, function or field, and no table mapping.
pub proof fn lemma_nodoc_block(
    p: ProcM,
    b: Block,
    parent: Option<OwnerM>,
    m: Map<Seq<char>, Seq<char>>,
)
    requires
        nodoc_first(block_lines(b)),
    ensures
        block_effect(p, b, parent, m) == (p, parent, m),
{
    let lines = block_lines(b);
    let ls = strings_view(lines);
    let k = choose|k: int|
        0 <= k < lines.len() && is_nodoc_line(lines[k]@) && forall|j: int|
            0 <= j < k ==> tag_line(#[trigger] lines[j]@) is None;
    assert forall|j: int| 0 <= j < k implies tag_line(#[trigger] ls[j]) is None by {
        assert(ls[j] == lines[j]@);
    }
    lemma_nodoc_after(p, ls, k, ls.len() as int);
    assert(ls.subrange(0, ls.len() as int) =~= ls);
}

/// In a run, a block whose `@lcat nodoc` comes before its other tags leaves
/// everything as the blocks before it left it.
pub proof fn lemma_nodoc_in_run(p: ProcM, bs: Seq<Block>, b: Block, m: Map<Seq<char>, Seq<char>>)
    requires
        nodoc_first(block_lines(b)),
    ensures
        run_effect(p, bs.push(b), m) == run_effect(p, bs, m),
{
    assert(bs.push(b).subrange(0, bs.len() as int) =~= bs);
    let (p1, m1) = run_effect(p, bs, m);
    lemma_nodoc_block(p1, b, None, m1);
}

/// Every entity of `a` is in `b`, at the same place.
pub open spec fn grows(a: ProcM, b: ProcM) -> bool {
    &&& extends(a.classes, b.classes)
    &&& extends(a.aliases, b.aliases)
    &&& extends(a.enums, b.enums)
    &&& extends(a.functions, b.functions)
}

proof fn lemma_grows_refl(a: ProcM)
    ensures
        grows(a, a),
{
    assert(a.classes.subrange(0, a.classes.len() as int) =~= a.classes);
    assert(a.aliases.subrange(0, a.aliases.len() as int) =~= a.aliases);
    assert(a.enums.subrange(0, a.enums.len() as int) =~= a.enums);
    assert(a.functions.subrange(0, a.functions.len() as int) =~= a.functions);
}

proof fn lemma_grows_trans(a: ProcM, b: ProcM, c: ProcM)
    requires
        grows(a, b),
        grows(b, c),
    ensures
        grows(a, c),
{
    lemma_extends_trans(a.classes, b.classes, c.classes);
    lemma_extends_trans(a.aliases, b.aliases, c.aliases);
    lemma_extends_trans(a.enums, b.enums, c.enums);
    lemma_extends_trans(a.functions, b.functions, c.functions);
}

proof fn lemma_commit_grows(p: ProcM, pend: PendingM)
    ensures
        grows(p, commit_m(p, pend)),
{
    lemma_grows_refl(p);
    match pend {
        PendingM::Class(c) => lemma_extends_push(p.classes, c),
        PendingM::Alias(a) => lemma_extends_push(p.aliases, a),
        PendingM::Enum(e) => lemma_extends_push(p.enums, e),
        _ => {},
    }
}

proof fn lemma_step_grows(st: LineState, l: Seq<char>)
    ensures
        grows(st.found, step(st, l).found),
{
    lemma_tag_names();
    lemma_grows_refl(st.found);
    lemma_commit_grows(st.found, st.pending);
}

proof fn lemma_run_grows(st: LineState, ls: Seq<Seq<char>>)
    ensures
        grows(st.found, run_lines(st, ls).found),
    decreases ls.len(),
{
    if ls.len() == 0 {
        lemma_grows_refl(st.found);
    } else {
        let pre = run_lines(st, ls.subrange(0, ls.len() - 1));
        lemma_run_grows(st, ls.subrange(0, ls.len() - 1));
        lemma_step_grows(pre, ls[ls.len() - 1]);
        lemma_grows_trans(st.found, pre.found, run_lines(st, ls).found);
    }
}

proof fn lemma_finish_grows(
    st: LineState,
    pend: PendingM,
    b: Block,
    parent: Option<OwnerM>,
    m: Map<Seq<char>, Seq<char>>,
)
    ensures
        grows(st.found, plain_finish(st, pend, b, parent, m)),
{
    let p2 = commit_m(st.found, pend);
    lemma_commit_grows(st.found, pend);
    if let Block::Function(fb) = b {
        let f = FunctionM {
            name: fb.name@,
            table: function_owner(opt_str_model(fb.table), m, owner_class_name(parent)),
            params: st.params,
            returns: st.returns,
            sees: st.sees,
            is_method: fb.is_method,
            description: desc_m(st.doc),
        };
        lemma_grows_refl(p2);
        lemma_extends_push(p2.functions, f);
        lemma_grows_trans(st.found, p2, plain_finish(st, pend, b, parent, m));
    }
}

proof fn lemma_owner_grows(p: ProcM, o: Option<OwnerM>)
    ensures
        grows(p, commit_owner(p, o)),
{
    lemma_grows_refl(p);
    match o {
        Some(OwnerM::Class(c)) => lemma_commit_grows(p, PendingM::Class(c)),
        Some(OwnerM::Enum(e)) => lemma_commit_grows(p, PendingM::Enum(e)),
        None => {},
    }
}

proof fn lemma_block_grows(p: ProcM, b: Block, parent: Option<OwnerM>, m: Map<Seq<char>, Seq<char>>)
    ensures
        grows(p, block_effect(p, b, parent, m).0),
    decreases b, 1int,
{
    let st = run_lines(start(p), strings_view(block_lines(b)));
    lemma_run_grows(start(p), strings_view(block_lines(b)));
    if !st.nodoc {
        let pend = match b {
            Block::Field(_) => if st.pending is Type {
                PendingM::Nothing
            } else {
                st.pending
            },
            _ => st.pending,
        };
        let r = block_effect(p, b, parent, m).0;
        match b {
            Block::Table(tb) => match pend {
                PendingM::Class(c) => {
                    let ch = children_effect(
                        st.found,
                        tb.fields@,
                        Some(OwnerM::Class(c)),
                        m.insert(tb.name@, c.name),
                    );
                    lemma_children_grows(
                        st.found,
                        tb.fields@,
                        Some(OwnerM::Class(c)),
                        m.insert(tb.name@, c.name),
                    );
                    lemma_owner_grows(ch.0, ch.1);
                    lemma_grows_trans(st.found, ch.0, r);
                    lemma_grows_trans(p, st.found, r);
                },
                PendingM::Enum(e) => {
                    let ch = children_effect(st.found, tb.fields@, Some(OwnerM::Enum(e)), m);
                    lemma_children_grows(st.found, tb.fields@, Some(OwnerM::Enum(e)), m);
                    lemma_owner_grows(ch.0, ch.1);
                    lemma_grows_trans(st.found, ch.0, r);
                    lemma_grows_trans(p, st.found, r);
                },
                _ => {
                    lemma_finish_grows(st, pend, b, parent, m);
                    lemma_grows_trans(p, st.found, r);
                },
            },
            _ => {
                lemma_finish_grows(st, pend, b, parent, m);
                lemma_grows_trans(p, st.found, r);
            },
        }
    }
}

proof fn lemma_children_grows(
    p: ProcM,
    bs: Seq<Block>,
    o: Option<OwnerM>,
    m: Map<Seq<char>, Seq<char>>,
)
    ensures
        grows(p, children_effect(p, bs, o, m).0),
    decreases bs, 0int,
{
    if bs.len() == 0 {
        lemma_grows_refl(p);
    } else {
        let (p1, o1, m1) = children_effect(p, bs.subrange(0, bs.len() - 1), o, m);
        lemma_children_grows(p, bs.subrange(0, bs.len() - 1), o, m);
        lemma_block_grows(p1, bs[bs.len() - 1], o1, m1);
        lemma_grows_trans(p, p1, children_effect(p, bs, o, m).0);
    }
}

/// Reading more blocks never changes or removes what the blocks before them
/// added: the entities found after `b1` stay, in place, after `b1 + b2`.
pub proof fn lemma_run_prefix(p: ProcM, b1: Seq<Block>, b2: Seq<Block>, m: Map<Seq<char>, Seq<char>>)
    ensures
        grows(run_effect(p, b1, m).0, run_effect(p, b1 + b2, m).0),
    decreases b2.len(),
{
    if b2.len() == 0 {
        assert(b1 + b2 =~= b1);
        lemma_grows_refl(run_effect(p, b1, m).0);
    } else {
        let b2s = b2.subrange(0, b2.len() - 1);
        lemma_run_prefix(p, b1, b2s, m);
        let all = b1 + b2;
        assert(all.subrange(0, all.len() - 1) =~= b1 + b2s);
        let (p1, m1) = run_effect(p, b1 + b2s, m);
        lemma_block_grows(p1, all[all.len() - 1], None, m1);
        lemma_grows_trans(run_effect(p, b1, m).0, p1, run_effect(p, all, m).0);
    }
}

/// The state of a block's reading, as plain values.
pub open spec fn lines_m(st: Lines, p: Processor) -> LineState {
    LineState {
        pending: pending_m(st.pending),
        doc: strings_view(st.doc@),
        nodoc: st.nodoc,
        params: params_m(st.params@),
        returns: returns_m(st.rets@),
        sees: sees_m(st.sees@),
        found: proc_m(p),
    }
}

/// The state while the lines of a block are read.
pub struct Lines {
    pub pending: Pending,
    pub doc: Vec<String>,
    pub nodoc: bool,
    pub params: Vec<Param>,
    pub rets: Vec<Return>,
    pub sees: Vec<See>,
}

proof fn lemma_tag_names()
    ensures
        "class"@.len() == 5 && "class"@[0] == 'c',
        "field"@.len() == 5 && "field"@[0] == 'f',
        "alias"@.len() == 5 && "alias"@[0] == 'a',
        "param"@.len() == 5 && "param"@[0] == 'p',
        "return"@.len() == 6 && "return"@[0] == 'r',
        "enum"@.len() == 4 && "enum"@[0] == 'e',
        "lcat"@.len() == 4 && "lcat"@[0] == 'l',
        "type"@.len() == 4 && "type"@[0] == 't',
        "see"@.len() == 3 && "see"@[0] == 's',
{
    reveal_strlit("class");
    reveal_strlit("field");
    reveal_strlit("alias");
    reveal_strlit("param");
    reveal_strlit("return");
    reveal_strlit("enum");
    reveal_strlit("lcat");
    reveal_strlit("type");
    reveal_strlit("see");
}

proof fn lemma_strings_push(v: Seq<String>, x: String)
    ensures
        strings_view(v.push(x)) == strings_view(v).push(x@),
{
    assert(strings_view(v.push(x)) =~= strings_view(v).push(x@));
}

impl Processor {
    pub fn new() -> (r: Processor)
        ensures
            proc_m(r) == (ProcM {
                classes: Seq::empty(),
                aliases: Seq::empty(),
                enums: Seq::empty(),
                functions: Seq::empty(),
            }),
            r.table_classes@ == Map::<Seq<char>, Seq<char>>::empty(),
    {
        let r = Processor {
            classes: Vec::new(),
            aliases: Vec::new(),
            functions: Vec::new(),
            enums: Vec::new(),
            table_classes: TableClassMap::new(),
        };
        proof {
            assert(proc_m(r).classes =~= Seq::<ClassM>::empty());
            assert(proc_m(r).aliases =~= Seq::<AliasM>::empty());
            assert(proc_m(r).enums =~= Seq::<EnumM>::empty());
            assert(proc_m(r).functions =~= Seq::<FunctionM>::empty());
        }
        r
    }

    /// Adds the pending declaration to the entities found.
    fn commit(&mut self, p: Pending)
        ensures
            final(self).functions == old(self).functions,
            final(self).table_classes == old(self).table_classes,
            keeps(*old(self), *final(self)),
            proc_m(*final(self)) == commit_m(proc_m(*old(self)), pending_m(p)),
    {
        proof {
            lemma_keeps_refl(*self);
        }
        let ghost p0 = proc_m(*self);
        match p {
            Pending::Class(c) => {
                proof {
                    lemma_extends_push(self.classes@, c);
                }
                self.classes.push(c);
                proof {
                    assert(proc_m(*self).classes =~= p0.classes.push(class_m(c)));
                    assert(proc_m(*self).aliases =~= p0.aliases);
                    assert(proc_m(*self).enums =~= p0.enums);
                    assert(proc_m(*self).functions =~= p0.functions);
                }
            },
            Pending::Alias(a) => {
                proof {
                    lemma_extends_push(self.aliases@, a);
                }
                self.aliases.push(a);
                proof {
                    assert(proc_m(*self).classes =~= p0.classes);
                    assert(proc_m(*self).aliases =~= p0.aliases.push(alias_m(a)));
                    assert(proc_m(*self).enums =~= p0.enums);
                    assert(proc_m(*self).functions =~= p0.functions);
                }
            },
            Pending::Enum(e) => {
                proof {
                    lemma_extends_push(self.enums@, e);
                }
                self.enums.push(e);
                proof {
                    assert(proc_m(*self).classes =~= p0.classes);
                    assert(proc_m(*self).aliases =~= p0.aliases);
                    assert(proc_m(*self).enums =~= p0.enums.push(enum_m(e)));
                    assert(proc_m(*self).functions =~= p0.functions);
                }
            },
            _ => {},
        }
    }

    /// Reads the blocks of one file, each at the outermost level. The map
    /// from table names to classes is kept for the whole run.
    pub fn process_blocks(&mut self, blocks: Vec<Block>)
        ensures
            keeps(*old(self), *final(self)),
            (proc_m(*final(self)), final(self).table_classes@) == run_effect(
                proc_m(*old(self)),
                blocks@,
                old(self).table_classes@,
            ),
    {
        let mut map = TableClassMap::new();
        std::mem::swap(&mut map, &mut self.table_classes);
        let ghost all = blocks@;
        let mut rest = blocks;
        let ghost mut done: int = 0;
        proof {
            lemma_keeps_refl(*self);
            assert(all.subrange(0, 0) =~= Seq::<Block>::empty());
        }
        while rest.len() > 0
            invariant
                keeps(*old(self), *self),
                0 <= done <= all.len(),
                rest@ == all.subrange(done, all.len() as int),
                (proc_m(*self), map@) == run_effect(
                    proc_m(*old(self)),
                    all.subrange(0, done),
                    old(self).table_classes@,
                ),
            decreases rest@.len(),
        {
            let b = rest.remove(0);
            proof {
                assert(b == all[done]);
                assert(rest@ =~= all.subrange(done + 1, all.len() as int));
                assert(all.subrange(0, done + 1).subrange(0, done) =~= all.subrange(0, done));
            }
            let ghost pre = *self;
            let _ = self.process_block(b, None, &mut map);
            proof {
                lemma_keeps_trans(*old(self), pre, *self);
                done = done + 1;
            }
        }
        let ghost before = *self;
        std::mem::swap(&mut map, &mut self.table_classes);
        proof {
            assert(all.subrange(0, all.len() as int) =~= all);
            assert(proc_m(*self) == proc_m(before));
            lemma_keeps_refl(before);
        }
    }

    /// Reads one annotation line of a block.
    fn step_line(&mut self, st: &mut Lines, line: &String)
        ensures
            keeps(*old(self), *final(self)),
            final(self).table_classes == old(self).table_classes,
            lines_m(*final(st), *final(self)) == step(lines_m(*old(st), *old(self)), line@),
    {
        proof {
            lemma_keeps_refl(*self);
            lemma_tag_names();
        }
        match try_parse_annotation(line.as_str()) {
            None => self.on_plain(st, line),
            Some((Annotation::Class, payload)) => self.on_class(st, &payload),
            Some((Annotation::Field, payload)) => self.on_field(st, &payload),
            Some((Annotation::Alias, payload)) => self.on_alias(st, &payload),
            Some((Annotation::Enum, payload)) => self.on_enum(st, &payload),
            Some((Annotation::Type, payload)) => self.on_type(st, &payload),
            Some((Annotation::Param, payload)) => self.on_param(st, &payload),
            Some((Annotation::Return, payload)) => self.on_return(st, &payload),
            Some((Annotation::See, payload)) => self.on_see(st, &payload),
            Some((Annotation::Lcat, payload)) => self.on_lcat(st, &payload),
            Some((Annotation::Unknown(_), _)) => {},
        }
    }

    fn on_class(&mut self, st: &mut Lines, payload: &String)
        ensures
            keeps(*old(self), *final(self)),
            final(self).table_classes == old(self).table_classes,
            lines_m(*final(st), *final(self)) == tag_step(lines_m(*old(st), *old(self)), "class"@, payload@),
    {
        proof {
            lemma_keeps_refl(*self);
            lemma_tag_names();
        }
        let ghost s0 = lines_m(*st, *self);
            if let Ok(c) = parse_class(payload.as_str(), description(&st.doc)) {
                st.doc = Vec::new();
                if !st.nodoc {
                    let prev = replace_pending(&mut st.pending, Pending::Class(c));
                    self.commit(prev);
                    st.params = Vec::new();
                    st.rets = Vec::new();
                    st.sees = Vec::new();
                }
                proof {
                    assert(class_m(c).lsp_fields =~= Seq::<LspFieldM>::empty());
                    assert(class_m(c).ts_fields =~= Seq::<TsFieldM>::empty());
                }
            }
            proof {
                assert(st.doc@.len() == 0 ==> strings_view(st.doc@) =~= Seq::<Seq<char>>::empty());
                assert(st.params@.len() == 0 ==> params_m(st.params@) =~= Seq::<ParamM>::empty());
                assert(st.rets@.len() == 0 ==> returns_m(st.rets@) =~= Seq::<ReturnM>::empty());
                assert(st.sees@.len() == 0 ==> sees_m(st.sees@) =~= Seq::<SeeM>::empty());
                assert(lines_m(*st, *self) =~~= tag_step(s0, "class"@, payload@));
            }
    }

    fn on_field(&mut self, st: &mut Lines, payload: &String)
        ensures
            keeps(*old(self), *final(self)),
            final(self).table_classes == old(self).table_classes,
            lines_m(*final(st), *final(self)) == tag_step(lines_m(*old(st), *old(self)), "field"@, payload@),
    {
        proof {
            lemma_keeps_refl(*self);
            lemma_tag_names();
        }
        let ghost s0 = lines_m(*st, *self);
            if let Pending::Class(class) = &mut st.pending {
                if let Ok(f) = parse_field(payload.as_str(), description(&st.doc)) {
                    st.doc = Vec::new();
                    if !st.nodoc {
                        let ghost c0 = *class;
                        class.lsp_fields.push(f);
                        proof {
                            assert(class_m(*class).lsp_fields =~= class_m(c0).lsp_fields.push(
                                lsp_m(f),
                            ));
                            assert(class_m(*class).ts_fields =~= class_m(c0).ts_fields);
                        }
                        st.params = Vec::new();
                        st.rets = Vec::new();
                        st.sees = Vec::new();
                    }
                }
            }
            proof {
                assert(st.doc@.len() == 0 ==> strings_view(st.doc@) =~= Seq::<Seq<char>>::empty());
                assert(st.params@.len() == 0 ==> params_m(st.params@) =~= Seq::<ParamM>::empty());
                assert(st.rets@.len() == 0 ==> returns_m(st.rets@) =~= Seq::<ReturnM>::empty());
                assert(st.sees@.len() == 0 ==> sees_m(st.sees@) =~= Seq::<SeeM>::empty());
                assert(lines_m(*st, *self) =~~= tag_step(s0, "field"@, payload@));
            }
    }

    fn on_alias(&mut self, st: &mut Lines, payload: &String)
        ensures
            keeps(*old(self), *final(self)),
            final(self).table_classes == old(self).table_classes,
            lines_m(*final(st), *final(self)) == tag_step(lines_m(*old(st), *old(self)), "alias"@, payload@),
    {
        proof {
            lemma_keeps_refl(*self);
            lemma_tag_names();
        }
        let ghost s0 = lines_m(*st, *self);
            if let Ok(a) = parse_alias(payload.as_str(), description(&st.doc)) {
            proof {
                if a.types@.len() == 1 {
                    assert(alias_m(a).types =~= seq![(a.types@[0].0@, opt_str_model(a.types@[0].1))]);
                } else {
                    assert(alias_m(a).types =~= Seq::<(TypeModel, Option<Seq<char>>)>::empty());
                }
            }
                st.doc = Vec::new();
                if !st.nodoc {
                    let prev = replace_pending(&mut st.pending, Pending::Alias(a));
                    self.commit(prev);
                    st.params = Vec::new();
                    st.rets = Vec::new();
                    st.sees = Vec::new();
                }
            }
            proof {
                assert(st.doc@.len() == 0 ==> strings_view(st.doc@) =~= Seq::<Seq<char>>::empty());
                assert(st.params@.len() == 0 ==> params_m(st.params@) =~= Seq::<ParamM>::empty());
                assert(st.rets@.len() == 0 ==> returns_m(st.rets@) =~= Seq::<ReturnM>::empty());
                assert(st.sees@.len() == 0 ==> sees_m(st.sees@) =~= Seq::<SeeM>::empty());
                assert(lines_m(*st, *self) =~~= tag_step(s0, "alias"@, payload@));
            }
    }

    fn on_enum(&mut self, st: &mut Lines, payload: &String)
        ensures
            keeps(*old(self), *final(self)),
            final(self).table_classes == old(self).table_classes,
            lines_m(*final(st), *final(self)) == tag_step(lines_m(*old(st), *old(self)), "enum"@, payload@),
    {
        proof {
            lemma_keeps_refl(*self);
            lemma_tag_names();
        }
        let ghost s0 = lines_m(*st, *self);
            if let Ok(e) = parse_enum(payload.as_str(), description(&st.doc)) {
                st.doc = Vec::new();
                if !st.nodoc {
                    let prev = replace_pending(&mut st.pending, Pending::Enum(e));
                    self.commit(prev);
                    st.params = Vec::new();
                    st.rets = Vec::new();
                    st.sees = Vec::new();
                }
                proof {
                    assert(enum_m(e).fields =~= Seq::<TsFieldM>::empty());
                }
            }
            proof {
                assert(st.doc@.len() == 0 ==> strings_view(st.doc@) =~= Seq::<Seq<char>>::empty());
                assert(st.params@.len() == 0 ==> params_m(st.params@) =~= Seq::<ParamM>::empty());
                assert(st.rets@.len() == 0 ==> returns_m(st.rets@) =~= Seq::<ReturnM>::empty());
                assert(st.sees@.len() == 0 ==> sees_m(st.sees@) =~= Seq::<SeeM>::empty());
                assert(lines_m(*st, *self) =~~= tag_step(s0, "enum"@, payload@));
            }
    }

    fn on_type(&mut self, st: &mut Lines, payload: &String)
        ensures
            keeps(*old(self), *final(self)),
            final(self).table_classes == old(self).table_classes,
            lines_m(*final(st), *final(self)) == tag_step(lines_m(*old(st), *old(self)), "type"@, payload@),
    {
        proof {
            lemma_keeps_refl(*self);
            lemma_tag_names();
        }
        let ghost s0 = lines_m(*st, *self);
            if let Ok(t) = parse_type_annotation(payload.as_str()) {
                if !st.nodoc {
                    let prev = replace_pending(&mut st.pending, Pending::Type(t));
                    self.commit(prev);
                    st.params = Vec::new();
                    st.rets = Vec::new();
                    st.sees = Vec::new();
                }
            }
            proof {
                assert(st.doc@.len() == 0 ==> strings_view(st.doc@) =~= Seq::<Seq<char>>::empty());
                assert(st.params@.len() == 0 ==> params_m(st.params@) =~= Seq::<ParamM>::empty());
                assert(st.rets@.len() == 0 ==> returns_m(st.rets@) =~= Seq::<ReturnM>::empty());
                assert(st.sees@.len() == 0 ==> sees_m(st.sees@) =~= Seq::<SeeM>::empty());
                assert(lines_m(*st, *self) =~~= tag_step(s0, "type"@, payload@));
            }
    }

    fn on_param(&mut self, st: &mut Lines, payload: &String)
        ensures
            keeps(*old(self), *final(self)),
            final(self).table_classes == old(self).table_classes,
            lines_m(*final(st), *final(self)) == tag_step(lines_m(*old(st), *old(self)), "param"@, payload@),
    {
        proof {
            lemma_keeps_refl(*self);
            lemma_tag_names();
        }
        let ghost s0 = lines_m(*st, *self);
            if let Ok(x) = parse_param(payload.as_str()) {
                if !st.nodoc {
                    let ghost v0 = st.params@;
                    st.params.push(x);
                    proof {
                        assert(params_m(st.params@) =~= params_m(v0).push(param_m(x)));
                    }
                    let prev = replace_pending(&mut st.pending, Pending::Nothing);
                    self.commit(prev);
                }
            }
            proof {
                assert(st.doc@.len() == 0 ==> strings_view(st.doc@) =~= Seq::<Seq<char>>::empty());
                assert(st.params@.len() == 0 ==> params_m(st.params@) =~= Seq::<ParamM>::empty());
                assert(st.rets@.len() == 0 ==> returns_m(st.rets@) =~= Seq::<ReturnM>::empty());
                assert(st.sees@.len() == 0 ==> sees_m(st.sees@) =~= Seq::<SeeM>::empty());
                assert(lines_m(*st, *self) =~~= tag_step(s0, "param"@, payload@));
            }
    }

    fn on_return(&mut self, st: &mut Lines, payload: &String)
        ensures
            keeps(*old(self), *final(self)),
            final(self).table_classes == old(self).table_classes,
            lines_m(*final(st), *final(self)) == tag_step(lines_m(*old(st), *old(self)), "return"@, payload@),
    {
        proof {
            lemma_keeps_refl(*self);
            lemma_tag_names();
        }
        let ghost s0 = lines_m(*st, *self);
            if let Ok(x) = parse_return(payload.as_str()) {
                if !st.nodoc {
                    let ghost v0 = st.rets@;
                    st.rets.push(x);
                    proof {
                        assert(returns_m(st.rets@) =~= returns_m(v0).push(return_m(x)));
                    }
                    let prev = replace_pending(&mut st.pending, Pending::Nothing);
                    self.commit(prev);
                }
            }
            proof {
                assert(st.doc@.len() == 0 ==> strings_view(st.doc@) =~= Seq::<Seq<char>>::empty());
                assert(st.params@.len() == 0 ==> params_m(st.params@) =~= Seq::<ParamM>::empty());
                assert(st.rets@.len() == 0 ==> returns_m(st.rets@) =~= Seq::<ReturnM>::empty());
                assert(st.sees@.len() == 0 ==> sees_m(st.sees@) =~= Seq::<SeeM>::empty());
                assert(lines_m(*st, *self) =~~= tag_step(s0, "return"@, payload@));
            }
    }

    fn on_see(&mut self, st: &mut Lines, payload: &String)
        ensures
            keeps(*old(self), *final(self)),
            final(self).table_classes == old(self).table_classes,
            lines_m(*final(st), *final(self)) == tag_step(lines_m(*old(st), *old(self)), "see"@, payload@),
    {
        proof {
            lemma_keeps_refl(*self);
            lemma_tag_names();
        }
        let ghost s0 = lines_m(*st, *self);
            if let Ok(x) = parse_see(payload.as_str()) {
                if !st.nodoc {
                    let ghost v0 = st.sees@;
                    st.sees.push(x);
                    proof {
                        assert(sees_m(st.sees@) =~= sees_m(v0).push(see_m(x)));
                    }
                    let prev = replace_pending(&mut st.pending, Pending::Nothing);
                    self.commit(prev);
                }
            }
            proof {
                assert(st.doc@.len() == 0 ==> strings_view(st.doc@) =~= Seq::<Seq<char>>::empty());
                assert(st.params@.len() == 0 ==> params_m(st.params@) =~= Seq::<ParamM>::empty());
                assert(st.rets@.len() == 0 ==> returns_m(st.rets@) =~= Seq::<ReturnM>::empty());
                assert(st.sees@.len() == 0 ==> sees_m(st.sees@) =~= Seq::<SeeM>::empty());
                assert(lines_m(*st, *self) =~~= tag_step(s0, "see"@, payload@));
            }
    }

    fn on_lcat(&mut self, st: &mut Lines, payload: &String)
        ensures
            keeps(*old(self), *final(self)),
            final(self).table_classes == old(self).table_classes,
            lines_m(*final(st), *final(self)) == tag_step(lines_m(*old(st), *old(self)), "lcat"@, payload@),
    {
        proof {
            lemma_keeps_refl(*self);
            lemma_tag_names();
        }
        let ghost s0 = lines_m(*st, *self);
            let lcat = parse_lcat(payload.as_str());
            if lcat.options.len() > 0 {
                st.nodoc = true;
            }
            proof {
                assert(st.doc@.len() == 0 ==> strings_view(st.doc@) =~= Seq::<Seq<char>>::empty());
                assert(st.params@.len() == 0 ==> params_m(st.params@) =~= Seq::<ParamM>::empty());
                assert(st.rets@.len() == 0 ==> returns_m(st.rets@) =~= Seq::<ReturnM>::empty());
                assert(st.sees@.len() == 0 ==> sees_m(st.sees@) =~= Seq::<SeeM>::empty());
                assert(lines_m(*st, *self) =~~= tag_step(s0, "lcat"@, payload@));
            }
    }

    fn on_plain(&mut self, st: &mut Lines, line: &String)
        ensures
            *final(self) == *old(self),
            lines_m(*final(st), *final(self)) == plain_step(lines_m(*old(st), *old(self)), line@),
    {
        let ghost s0 = lines_m(*st, *self);
            let mut continued = false;
            if let Pending::Alias(alias) = &mut st.pending {
                if let Some(rest) = try_parse_alias_line(line.as_str()) {
                    continued = true;
                    if let Some(rest) = rest {
                        let desc = description(&st.doc);
                        if let Ok((t, d)) = parse_alias_line(rest.as_str(), desc) {
                            st.doc = Vec::new();
                            if !st.nodoc {
                                let ghost a0 = *alias;
                                alias.add_type(t, d);
                                proof {
                                    assert(alias_m(*alias).types =~= alias_m(a0).types.push(
                                        (t@, opt_str_model(d)),
                                    ));
                                }
                            }
                        }
                    }
                }
            }
            if !continued {
                let ghost d0 = st.doc@;
                st.doc.push(line.clone());
                proof {
                    lemma_strings_push(d0, *line);
                }
            }
            proof {
                assert(st.doc@.len() == 0 ==> strings_view(st.doc@) =~= Seq::<Seq<char>>::empty());
                assert(lines_m(*st, *self) =~~= plain_step(s0, line@));
            }
    }

    /// Reads one block: its annotation lines in order, then what it documents.
    /// The class or enum whose table body holds the block, if any, is handed
    /// in and handed back; `block_effect` states the whole of what it does.
    #[verifier::rlimit(100)]
    pub fn process_block(
        &mut self,
        block: Block,
        parent: Option<Owner>,
        table_class_map: &mut TableClassMap,
    ) -> (r: Option<Owner>)
        ensures
            owner_kind(r) == owner_kind(parent),
            keeps(*old(self), *final(self)),
            final(self).table_classes == old(self).table_classes,
            (proc_m(*final(self)), owner_m(r), final(table_class_map)@) == block_effect(
                proc_m(*old(self)),
                block,
                owner_m(parent),
                old(table_class_map)@,
            ),
        decreases block, 1int,
    {
        let ghost block0 = block;
        let ghost p0 = proc_m(*self);
        let mut parent = parent;
        let parent_name: Option<String> = match &parent {
            Some(Owner::Class(c)) => Some(c.name.clone()),
            _ => None,
        };
        let (lines, shape) = match block {
            Block::Table(t) => (t.annotations, Shape::Table(t.name, t.fields)),
            Block::Field(f) => (f.annotations, Shape::Field(f.name, f.value)),
            Block::Function(f) => (f.annotations, Shape::Function(f.table, f.name, f.is_method)),
            Block::Free(f) => (f.annotations, Shape::Free),
        };
        let mut st = Lines {
            pending: Pending::Nothing,
            doc: Vec::new(),
            nodoc: false,
            params: Vec::new(),
            rets: Vec::new(),
            sees: Vec::new(),
        };
        let ghost ls = strings_view(lines@);
        proof {
            lemma_keeps_refl(*self);
            assert(strings_view(st.doc@) =~= Seq::<Seq<char>>::empty());
            assert(params_m(st.params@) =~= Seq::<ParamM>::empty());
            assert(returns_m(st.rets@) =~= Seq::<ReturnM>::empty());
            assert(sees_m(st.sees@) =~= Seq::<SeeM>::empty());
            assert(lines_m(st, *self) =~~= start(p0));
            assert(ls.subrange(0, 0) =~= Seq::<Seq<char>>::empty());
        }
        let mut i: usize = 0;
        while i < lines.len()
            invariant
                i <= lines@.len(),
                lines@ == block_lines(block0),
                ls == strings_view(lines@),
                lines_m(st, *self) == run_lines(start(p0), ls.subrange(0, i as int)),
                keeps(*old(self), *self),
                self.table_classes == old(self).table_classes,
            decreases lines@.len() - i,
        {
            let ghost pre = *self;
            self.step_line(&mut st, &lines[i]);
            proof {
                lemma_keeps_trans(*old(self), pre, *self);
                assert(ls.subrange(0, i + 1).subrange(0, i as int) =~= ls.subrange(0, i as int));
            }
            i = i + 1;
        }
        proof {
            assert(ls.subrange(0, i as int) =~= ls);
        }
        let ghost fin = lines_m(st, *self);
        if st.nodoc {
            return parent;
        }
        let mut pending = st.pending;
        let shape = match shape {
            Shape::Field(name, value) => {
                let ty = match pending {
                    Pending::Type(t) => {
                        pending = Pending::Nothing;
                        Some(t)
                    },
                    other => {
                        pending = other;
                        None
                    },
                };
                let field = TsField { name, ty, description: description(&st.doc), value };
                match &mut parent {
                    Some(Owner::Class(c)) => {
                        let ghost c0 = *c;
                        c.ts_fields.push(field);
                        proof {
                            assert(class_m(*c).ts_fields =~= class_m(c0).ts_fields.push(ts_m(field)));
                            assert(class_m(*c).lsp_fields =~= class_m(c0).lsp_fields);
                            assert(class_m(*c) =~~= ClassM {
                                ts_fields: class_m(c0).ts_fields.push(ts_m(field)),
                                ..class_m(c0)
                            });
                        }
                    },
                    Some(Owner::Enum(e)) => {
                        let ghost e0 = *e;
                        e.fields.push(field);
                        proof {
                            assert(enum_m(*e).fields =~= enum_m(e0).fields.push(ts_m(field)));
                            assert(enum_m(*e) =~~= EnumM {
                                fields: enum_m(e0).fields.push(ts_m(field)),
                                ..enum_m(e0)
                            });
                        }
                    },
                    None => {},
                }
                Shape::Free
            },
            other => other,
        };
        let ghost mid = *self;
        match pending {
            Pending::Class(c) => {
                if let Shape::Table(name, fields) = shape {
                    let cname = c.name.clone();
                    table_class_map.insert(name, cname);
                    let owner = self.process_children(
                        fields,
                        Some(Owner::Class(c)),
                        table_class_map,
                        Ghost(block0),
                    );
                    let ghost after = *self;
                    self.commit_owner(owner);
                    proof {
                        lemma_keeps_trans(mid, after, *self);
                        lemma_keeps_trans(*old(self), mid, *self);
                    }
                    return parent;
                }
                self.commit(Pending::Class(c));
            },
            Pending::Enum(e) => {
                if let Shape::Table(_, fields) = shape {
                    let owner = self.process_children(
                        fields,
                        Some(Owner::Enum(e)),
                        table_class_map,
                        Ghost(block0),
                    );
                    let ghost after = *self;
                    self.commit_owner(owner);
                    proof {
                        lemma_keeps_trans(mid, after, *self);
                        lemma_keeps_trans(*old(self), mid, *self);
                    }
                    return parent;
                }
                self.commit(Pending::Enum(e));
            },
            other => self.commit(other),
        }
        proof {
            lemma_keeps_trans(*old(self), mid, *self);
        }
        if let Shape::Function(table, name, is_method) = shape {
            let resolved = match table {
                Some(t) => match table_class_map.get(&t) {
                    Some(c) => Some(c),
                    None => Some(t),
                },
                None => None,
            };
            let owner = match parent_name {
                Some(c) => match resolved {
                    Some(t) => {
                        let mut q = t;
                        q.append(".");
                        q.append(c.as_str());
                        Some(q)
                    },
                    None => Some(c),
                },
                None => resolved,
            };
            let f = Function {
                name,
                table: owner,
                params: st.params,
                returns: st.rets,
                sees: st.sees,
                is_method,
                description: description(&st.doc),
            };
            let ghost before = *self;
            proof {
                lemma_extends_push(self.functions@, f);
                lemma_keeps_refl(before);
            }
            self.functions.push(f);
            proof {
                lemma_keeps_trans(*old(self), before, *self);
                assert(proc_m(*self).functions =~= proc_m(before).functions.push(function_m(f)));
                assert(proc_m(*self) =~~= ProcM {
                    functions: proc_m(before).functions.push(function_m(f)),
                    ..proc_m(before)
                });
            }
        }
        parent
    }

    /// Commits the owner of a table body once its blocks are read.
    fn commit_owner(&mut self, owner: Option<Owner>)
        ensures
            final(self).table_classes == old(self).table_classes,
            keeps(*old(self), *final(self)),
            proc_m(*final(self)) == commit_owner(proc_m(*old(self)), owner_m(owner)),
    {
        match owner {
            Some(Owner::Class(c)) => self.commit(Pending::Class(c)),
            Some(Owner::Enum(e)) => self.commit(Pending::Enum(e)),
            None => {
                proof {
                    lemma_keeps_refl(*self);
                }
            },
        }
    }

    /// Reads the blocks of a table body with the class or enum declared on
    /// the table as their owner, which is handed back.
    fn process_children(
        &mut self,
        fields: Vec<Block>,
        owner: Option<Owner>,
        table_class_map: &mut TableClassMap,
        Ghost(block): Ghost<Block>,
    ) -> (r: Option<Owner>)
        requires
            block is Table,
            (block->Table_0).fields == fields,
        ensures
            owner_kind(r) == owner_kind(owner),
            keeps(*old(self), *final(self)),
            final(self).table_classes == old(self).table_classes,
            (proc_m(*final(self)), owner_m(r), final(table_class_map)@) == children_effect(
                proc_m(*old(self)),
                fields@,
                owner_m(owner),
                old(table_class_map)@,
            ),
        decreases block, 0int,
    {
        let ghost kind0 = owner_kind(owner);
        let ghost o0 = owner_m(owner);
        let mut owner = owner;
        let mut rest = fields;
        let ghost all = rest@;
        let ghost mut done: int = 0;
        proof {
            lemma_keeps_refl(*self);
            assert(all.subrange(0, 0) =~= Seq::<Block>::empty());
        }
        while rest.len() > 0
            invariant
                block is Table,
                (block->Table_0).fields@ == all,
                0 <= done <= all.len(),
                rest@ == all.subrange(done, all.len() as int),
                owner_kind(owner) == kind0,
                keeps(*old(self), *self),
                self.table_classes == old(self).table_classes,
                (proc_m(*self), owner_m(owner), table_class_map@) == children_effect(
                    proc_m(*old(self)),
                    all.subrange(0, done),
                    o0,
                    old(table_class_map)@,
                ),
            decreases rest@.len(),
        {
            let child = rest.remove(0);
            proof {
                assert(child == all[done]);
                assert(decreases_to!(block => block->Table_0));
                assert(decreases_to!((block->Table_0) => (block->Table_0).fields));
                assert(decreases_to!((block->Table_0).fields => all[done]));
                assert(all.subrange(0, done + 1).subrange(0, done) =~= all.subrange(0, done));
                done = done + 1;
                assert(rest@ =~= all.subrange(done, all.len() as int));
            }
            let ghost pre = *self;
            owner = self.process_block(child, owner, table_class_map);
            proof {
                lemma_keeps_trans(*old(self), pre, *self);
            }
        }
        proof {
            assert(all.subrange(0, all.len() as int) =~= all);
        }
        owner
    }
}

} // verus!
