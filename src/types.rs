use vstd::prelude::*;
use vstd::string::*;

verus! {

broadcast use vstd::std_specs::vec::group_vec_axioms;

/// A type expression of the annotation language.
///
/// `nullable` and `generics` are overlays that apply to any kind of type.
#[derive(Debug, PartialEq)]
pub struct Type {
    pub inner: TypeInner,
    pub generics: Vec<Type>,
    pub nullable: bool,
}

/// The kind of entity a user-defined name refers to.
#[derive(Debug, Clone, Copy, PartialEq, Eq, Structural)]
pub enum Metatype {
    Class,
    Alias,
    Enum,
}

#[derive(Debug, PartialEq)]
pub enum TypeInner {
    Nil,
    Any,
    Boolean,
    String,
    Number,
    Integer,
    Table,
    Literal(Literal),
    Function { args: Vec<(String, Type)>, ret: Vec<(Option<String>, Type)> },
    Thread,
    Userdata,
    LightUserdata,
    Union(Vec<Type>),
    Array(Box<Type>),
    Tuple(Vec<Type>),
    TableDef(TableDef),
    UserDefined(String),
}

/// A singleton type. A number literal is kept as its source text.
#[derive(Debug, Clone, PartialEq)]
pub enum Literal {
    Boolean(bool),
    String(String),
    Number(String),
    Integer(i64),
}

#[derive(Debug, PartialEq)]
pub struct TableDef {
    pub fields: Vec<(Type, Type)>,
}

// ---------------------------------------------------------------------------
// Mathematical model
// ---------------------------------------------------------------------------

pub enum LiteralModel {
    Boolean(bool),
    String(Seq<char>),
    Number(Seq<char>),
    Integer(int),
}

pub enum KindModel {
    Nil,
    Any,
    Boolean,
    String,
    Number,
    Integer,
    Table,
    Literal(LiteralModel),
    Function { args: Seq<(Seq<char>, TypeModel)>, ret: Seq<(Option<Seq<char>>, TypeModel)> },
    Thread,
    Userdata,
    LightUserdata,
    Union(Seq<TypeModel>),
    Array(Box<TypeModel>),
    Tuple(Seq<TypeModel>),
    TableDef(Seq<(TypeModel, TypeModel)>),
    UserDefined(Seq<char>),
}

/// The value a `Type` denotes: the same tree with sequences for vectors and
/// character sequences for strings.
pub struct TypeModel {
    pub inner: KindModel,
    pub generics: Seq<TypeModel>,
    pub nullable: bool,
}

pub open spec fn literal_model(l: &Literal) -> LiteralModel {
    match l {
        Literal::Boolean(b) => LiteralModel::Boolean(*b),
        Literal::String(s) => LiteralModel::String(s@),
        Literal::Number(s) => LiteralModel::Number(s@),
        Literal::Integer(n) => LiteralModel::Integer(*n as int),
    }
}

pub open spec fn type_model(t: &Type) -> TypeModel
    decreases t,
{
    TypeModel { inner: kind_model(&t.inner), generics: types_model(t.generics@), nullable: t.nullable }
}

pub open spec fn kind_model(k: &TypeInner) -> KindModel
    decreases k,
{
    match k {
        TypeInner::Nil => KindModel::Nil,
        TypeInner::Any => KindModel::Any,
        TypeInner::Boolean => KindModel::Boolean,
        TypeInner::String => KindModel::String,
        TypeInner::Number => KindModel::Number,
        TypeInner::Integer => KindModel::Integer,
        TypeInner::Table => KindModel::Table,
        TypeInner::Literal(l) => KindModel::Literal(literal_model(l)),
        TypeInner::Function { args, ret } => KindModel::Function {
            args: args_model(args@),
            ret: rets_model(ret@),
        },
        TypeInner::Thread => KindModel::Thread,
        TypeInner::Userdata => KindModel::Userdata,
        TypeInner::LightUserdata => KindModel::LightUserdata,
        TypeInner::Union(ts) => KindModel::Union(types_model(ts@)),
        TypeInner::Array(b) => KindModel::Array(Box::new(type_model(b))),
        TypeInner::Tuple(ts) => KindModel::Tuple(types_model(ts@)),
        TypeInner::TableDef(d) => KindModel::TableDef(fields_model(d.fields@)),
        TypeInner::UserDefined(n) => KindModel::UserDefined(n@),
    }
}

pub open spec fn types_model(s: Seq<Type>) -> Seq<TypeModel>
    decreases s,
{
    if s.len() == 0 {
        Seq::empty()
    } else {
        types_model(s.subrange(0, s.len() - 1)).push(type_model(&s[s.len() - 1]))
    }
}

pub open spec fn args_model(s: Seq<(String, Type)>) -> Seq<(Seq<char>, TypeModel)>
    decreases s,
{
    if s.len() == 0 {
        Seq::empty()
    } else {
        args_model(s.subrange(0, s.len() - 1)).push(
            (s[s.len() - 1].0@, type_model(&s[s.len() - 1].1)),
        )
    }
}

pub open spec fn opt_str_model(o: Option<String>) -> Option<Seq<char>> {
    match o {
        Some(s) => Some(s@),
        None => None,
    }
}

pub open spec fn rets_model(s: Seq<(Option<String>, Type)>) -> Seq<(Option<Seq<char>>, TypeModel)>
    decreases s,
{
    if s.len() == 0 {
        Seq::empty()
    } else {
        rets_model(s.subrange(0, s.len() - 1)).push(
            (opt_str_model(s[s.len() - 1].0), type_model(&s[s.len() - 1].1)),
        )
    }
}

pub open spec fn fields_model(s: Seq<(Type, Type)>) -> Seq<(TypeModel, TypeModel)>
    decreases s,
{
    if s.len() == 0 {
        Seq::empty()
    } else {
        fields_model(s.subrange(0, s.len() - 1)).push(
            (type_model(&s[s.len() - 1].0), type_model(&s[s.len() - 1].1)),
        )
    }
}

impl View for Type {
    type V = TypeModel;

    open spec fn view(&self) -> TypeModel {
        type_model(self)
    }
}

pub proof fn lemma_types_model(s: Seq<Type>)
    ensures
        types_model(s).len() == s.len(),
        forall|i: int| 0 <= i < s.len() ==> #[trigger] types_model(s)[i] == type_model(&s[i]),
    decreases s.len(),
{
    if s.len() > 0 {
        lemma_types_model(s.subrange(0, s.len() - 1));
    }
}

pub proof fn lemma_args_model(s: Seq<(String, Type)>)
    ensures
        args_model(s).len() == s.len(),
        forall|i: int|
            0 <= i < s.len() ==> #[trigger] args_model(s)[i] == (s[i].0@, type_model(&s[i].1)),
    decreases s.len(),
{
    if s.len() > 0 {
        lemma_args_model(s.subrange(0, s.len() - 1));
    }
}

pub proof fn lemma_rets_model(s: Seq<(Option<String>, Type)>)
    ensures
        rets_model(s).len() == s.len(),
        forall|i: int|
            0 <= i < s.len() ==> #[trigger] rets_model(s)[i] == (
                opt_str_model(s[i].0),
                type_model(&s[i].1),
            ),
    decreases s.len(),
{
    if s.len() > 0 {
        lemma_rets_model(s.subrange(0, s.len() - 1));
    }
}

pub proof fn lemma_fields_model(s: Seq<(Type, Type)>)
    ensures
        fields_model(s).len() == s.len(),
        forall|i: int|
            0 <= i < s.len() ==> #[trigger] fields_model(s)[i] == (
                type_model(&s[i].0),
                type_model(&s[i].1),
            ),
    decreases s.len(),
{
    if s.len() > 0 {
        lemma_fields_model(s.subrange(0, s.len() - 1));
    }
}

/// The model of a type with no generics that is not nullable.
pub open spec fn bare(k: KindModel) -> TypeModel {
    TypeModel { inner: k, generics: Seq::empty(), nullable: false }
}

/// The type marked nullable.
pub open spec fn nullable_applied(t: TypeModel) -> TypeModel {
    TypeModel { nullable: true, ..t }
}

/// The type with one more generic argument.
pub open spec fn generic_added(t: TypeModel, g: TypeModel) -> TypeModel {
    TypeModel { generics: t.generics.push(g), ..t }
}

/// Marking a type nullable and giving it a generic argument are
/// independent: either order gives the same type.
pub proof fn lemma_nullable_generic_commute(t: TypeModel, g: TypeModel)
    ensures
        generic_added(nullable_applied(t), g) == nullable_applied(generic_added(t, g)),
        generic_added(nullable_applied(t), g).nullable,
        generic_added(nullable_applied(t), g).generics == t.generics.push(g),
        generic_added(nullable_applied(t), g).inner == t.inner,
{
}

impl Type {
    /// A type of the given kind, without generics, not nullable.
    pub fn new(inner: TypeInner) -> (r: Type)
        ensures
            r@ == bare(kind_model(&inner)),
    {
        Type { inner, generics: Vec::new(), nullable: false }
    }

    /// Wraps the type into an array of it; the array itself is bare.
    pub fn make_array(&mut self)
        ensures
            final(self)@ == bare(KindModel::Array(Box::new(old(self)@))),
    {
        let mut elem = Type::new(TypeInner::Nil);
        std::mem::swap(self, &mut elem);
        *self = Type::new(TypeInner::Array(Box::new(elem)));
    }

    pub fn make_nullable(&mut self)
        ensures
            final(self)@ == nullable_applied(old(self)@),
    {
        self.nullable = true;
    }

    pub fn union(types: Vec<Type>) -> (r: Type)
        ensures
            r@ == bare(KindModel::Union(types_model(types@))),
    {
        Type::new(TypeInner::Union(types))
    }

    pub fn string_literal(string: &str) -> (r: Type)
        ensures
            r@ == bare(KindModel::Literal(LiteralModel::String(string@))),
    {
        Type::new(TypeInner::Literal(Literal::String(string.to_string())))
    }

    pub fn integer_literal(integer: i64) -> (r: Type)
        ensures
            r@ == bare(KindModel::Literal(LiteralModel::Integer(integer as int))),
    {
        Type::new(TypeInner::Literal(Literal::Integer(integer)))
    }

    pub fn boolean_literal(boolean: bool) -> (r: Type)
        ensures
            r@ == bare(KindModel::Literal(LiteralModel::Boolean(boolean))),
    {
        Type::new(TypeInner::Literal(Literal::Boolean(boolean)))
    }

    pub fn user_defined(ty: &str) -> (r: Type)
        ensures
            r@ == bare(KindModel::UserDefined(ty@)),
    {
        Type::new(TypeInner::UserDefined(ty.to_string()))
    }

    pub fn function(args: Vec<(String, Type)>, returns: Vec<(Option<String>, Type)>) -> (r: Type)
        ensures
            r@ == bare(KindModel::Function { args: args_model(args@), ret: rets_model(returns@) }),
    {
        Type::new(TypeInner::Function { args, ret: returns })
    }

    pub fn table(fields: Vec<(Type, Type)>) -> (r: Type)
        ensures
            r@ == bare(KindModel::TableDef(fields_model(fields@))),
    {
        Type::new(TypeInner::TableDef(TableDef { fields }))
    }

    pub fn tuple(types: Vec<Type>) -> (r: Type)
        ensures
            r@ == bare(KindModel::Tuple(types_model(types@))),
    {
        Type::new(TypeInner::Tuple(types))
    }

    pub fn add_generic(&mut self, generic: Type)
        ensures
            final(self)@ == generic_added(old(self)@, generic@),
    {
        let ghost g0 = self.generics@;
        self.generics.push(generic);
        proof {
            assert(self.generics@.subrange(0, self.generics@.len() - 1) =~= g0);
        }
    }

    /// A copy of the type, equal to it at every depth.
    pub fn duplicate(&self) -> (r: Type)
        ensures
            r@ == self@,
        decreases self, 1int,
    {
        proof {
            assert(decreases_to!(*self => self.generics));
        }
        let generics = duplicate_types(&self.generics);
        let inner = match &self.inner {
            TypeInner::Nil => TypeInner::Nil,
            TypeInner::Any => TypeInner::Any,
            TypeInner::Boolean => TypeInner::Boolean,
            TypeInner::String => TypeInner::String,
            TypeInner::Number => TypeInner::Number,
            TypeInner::Integer => TypeInner::Integer,
            TypeInner::Table => TypeInner::Table,
            TypeInner::Literal(l) => TypeInner::Literal(
                match l {
                    Literal::Boolean(b) => Literal::Boolean(*b),
                    Literal::String(x) => Literal::String(x.clone()),
                    Literal::Number(x) => Literal::Number(x.clone()),
                    Literal::Integer(n) => Literal::Integer(*n),
                },
            ),
            TypeInner::Function { args, ret } => {
                proof {
                    assert(decreases_to!(*self => self.inner));
                }
                TypeInner::Function { args: duplicate_args(args), ret: duplicate_rets(ret) }
            },
            TypeInner::Thread => TypeInner::Thread,
            TypeInner::Userdata => TypeInner::Userdata,
            TypeInner::LightUserdata => TypeInner::LightUserdata,
            TypeInner::Union(ts) => {
                proof {
                    assert(decreases_to!(*self => self.inner));
                }
                TypeInner::Union(duplicate_types(ts))
            },
            TypeInner::Array(b) => {
                proof {
                    assert(decreases_to!(*self => self.inner));
                }
                TypeInner::Array(Box::new(b.duplicate()))
            },
            TypeInner::Tuple(ts) => {
                proof {
                    assert(decreases_to!(*self => self.inner));
                }
                TypeInner::Tuple(duplicate_types(ts))
            },
            TypeInner::TableDef(d) => {
                proof {
                    assert(decreases_to!(*self => self.inner));
                }
                TypeInner::TableDef(TableDef { fields: duplicate_fields(&d.fields) })
            },
            TypeInner::UserDefined(n) => TypeInner::UserDefined(n.clone()),
        };
        Type { inner, generics, nullable: self.nullable }
    }

    pub fn is_user_defined(&self) -> (r: bool)
        ensures
            r == (self@.inner is UserDefined),
    {
        matches!(&self.inner, TypeInner::UserDefined(_))
    }
}

pub proof fn lemma_types_model_prefix(s: Seq<Type>, i: int)
    requires
        0 <= i < s.len(),
    ensures
        types_model(s.subrange(0, i + 1)) == types_model(s.subrange(0, i)).push(type_model(&s[i])),
{
    assert(s.subrange(0, i + 1).subrange(0, i) =~= s.subrange(0, i));
}

pub fn duplicate_types(v: &Vec<Type>) -> (r: Vec<Type>)
    ensures
        types_model(r@) == types_model(v@),
    decreases v, 0int,
{
    let mut r: Vec<Type> = Vec::new();
    let mut i: usize = 0;
    proof {
        assert(types_model(r@) =~= types_model(v@.subrange(0, 0)));
    }
    while i < v.len()
        invariant
            i <= v@.len(),
            types_model(r@) == types_model(v@.subrange(0, i as int)),
        decreases v@.len() - i,
    {
        proof {
            assert(decreases_to!(*v => v[i as int]));
            lemma_types_model_prefix(v@, i as int);
        }
        let t = v[i].duplicate();
        let ghost r0 = r@;
        r.push(t);
        proof {
            assert(r@.subrange(0, r0.len() as int) =~= r0);
        }
        i = i + 1;
    }
    proof {
        assert(v@.subrange(0, i as int) =~= v@);
    }
    r
}

pub fn duplicate_args(v: &Vec<(String, Type)>) -> (r: Vec<(String, Type)>)
    ensures
        args_model(r@) == args_model(v@),
    decreases v, 0int,
{
    let mut r: Vec<(String, Type)> = Vec::new();
    let mut i: usize = 0;
    proof {
        assert(args_model(r@) =~= args_model(v@.subrange(0, 0)));
    }
    while i < v.len()
        invariant
            i <= v@.len(),
            args_model(r@) == args_model(v@.subrange(0, i as int)),
        decreases v@.len() - i,
    {
        proof {
            assert(decreases_to!(*v => v[i as int]));
            assert(decreases_to!(v[i as int] => v[i as int].1));
            assert(v@.subrange(0, i + 1).subrange(0, i as int) =~= v@.subrange(0, i as int));
        }
        let t = v[i].1.duplicate();
        let ghost r0 = r@;
        r.push((v[i].0.clone(), t));
        proof {
            assert(r@.subrange(0, r0.len() as int) =~= r0);
        }
        i = i + 1;
    }
    proof {
        assert(v@.subrange(0, i as int) =~= v@);
    }
    r
}

pub fn duplicate_rets(v: &Vec<(Option<String>, Type)>) -> (r: Vec<(Option<String>, Type)>)
    ensures
        rets_model(r@) == rets_model(v@),
    decreases v, 0int,
{
    let mut r: Vec<(Option<String>, Type)> = Vec::new();
    let mut i: usize = 0;
    proof {
        assert(rets_model(r@) =~= rets_model(v@.subrange(0, 0)));
    }
    while i < v.len()
        invariant
            i <= v@.len(),
            rets_model(r@) == rets_model(v@.subrange(0, i as int)),
        decreases v@.len() - i,
    {
        proof {
            assert(decreases_to!(*v => v[i as int]));
            assert(decreases_to!(v[i as int] => v[i as int].1));
            assert(v@.subrange(0, i + 1).subrange(0, i as int) =~= v@.subrange(0, i as int));
        }
        let t = v[i].1.duplicate();
        let n = match &v[i].0 {
            Some(x) => Some(x.clone()),
            None => None,
        };
        let ghost r0 = r@;
        r.push((n, t));
        proof {
            assert(r@.subrange(0, r0.len() as int) =~= r0);
        }
        i = i + 1;
    }
    proof {
        assert(v@.subrange(0, i as int) =~= v@);
    }
    r
}

pub fn duplicate_fields(v: &Vec<(Type, Type)>) -> (r: Vec<(Type, Type)>)
    ensures
        fields_model(r@) == fields_model(v@),
    decreases v, 0int,
{
    let mut r: Vec<(Type, Type)> = Vec::new();
    let mut i: usize = 0;
    proof {
        assert(fields_model(r@) =~= fields_model(v@.subrange(0, 0)));
    }
    while i < v.len()
        invariant
            i <= v@.len(),
            fields_model(r@) == fields_model(v@.subrange(0, i as int)),
        decreases v@.len() - i,
    {
        proof {
            assert(decreases_to!(*v => v[i as int]));
            assert(decreases_to!(v[i as int] => v[i as int].0));
            assert(decreases_to!(v[i as int] => v[i as int].1));
            assert(v@.subrange(0, i + 1).subrange(0, i as int) =~= v@.subrange(0, i as int));
        }
        let k = v[i].0.duplicate();
        let t = v[i].1.duplicate();
        let ghost r0 = r@;
        r.push((k, t));
        proof {
            assert(r@.subrange(0, r0.len() as int) =~= r0);
        }
        i = i + 1;
    }
    proof {
        assert(v@.subrange(0, i as int) =~= v@);
    }
    r
}

// ---------------------------------------------------------------------------
// Text
// ---------------------------------------------------------------------------

/// The parts joined with `sep` between each two.
pub open spec fn join(parts: Seq<Seq<char>>, sep: Seq<char>) -> Seq<char>
    decreases parts.len(),
{
    if parts.len() == 0 {
        Seq::empty()
    } else if parts.len() == 1 {
        parts[0]
    } else {
        join(parts.subrange(0, parts.len() - 1), sep) + sep + parts[parts.len() - 1]
    }
}

/// The decimal digits of a natural number.
pub open spec fn nat_text(n: nat) -> Seq<char>
    decreases n,
{
    let d = seq!['0', '1', '2', '3', '4', '5', '6', '7', '8', '9'][(n % 10) as int];
    if n < 10 {
        seq![d]
    } else {
        nat_text(n / 10).push(d)
    }
}

/// An integer in decimal, with a minus sign when negative.
pub open spec fn int_text(n: int) -> Seq<char> {
    if n < 0 {
        seq!['-'] + nat_text((-n) as nat)
    } else {
        nat_text(n as nat)
    }
}

pub open spec fn literal_text(l: LiteralModel) -> Seq<char> {
    match l {
        LiteralModel::Boolean(b) => if b {
            "true"@
        } else {
            "false"@
        },
        LiteralModel::String(x) => x,
        LiteralModel::Number(x) => x,
        LiteralModel::Integer(n) => int_text(n),
    }
}

/// The name of a primitive kind, for the kinds that are primitives.
pub open spec fn primitive_name(k: KindModel) -> Option<Seq<char>> {
    match k {
        KindModel::Nil => Some("nil"@),
        KindModel::Any => Some("any"@),
        KindModel::Boolean => Some("boolean"@),
        KindModel::String => Some("string"@),
        KindModel::Number => Some("number"@),
        KindModel::Integer => Some("integer"@),
        KindModel::Table => Some("table"@),
        KindModel::Thread => Some("thread"@),
        KindModel::Userdata => Some("userdata"@),
        KindModel::LightUserdata => Some("lightuserdata"@),
        _ => None,
    }
}

/// The text of a type in the annotation language, without nullability.
pub open spec fn type_text(t: TypeModel) -> Seq<char>
    decreases t, 1int,
{
    kind_text(t) + if t.generics.len() == 0 {
        Seq::empty()
    } else {
        "<"@ + join(types_texts(t.generics), ", "@) + ">"@
    }
}

/// The text of a type without its generic arguments.
pub open spec fn kind_text(t: TypeModel) -> Seq<char>
    decreases t, 0int,
{
    match t.inner {
        KindModel::Literal(l) => literal_text(l),
        KindModel::Function { args, ret } => "fun("@ + join(args_texts(args), ", "@) + ")"@ + if ret.len()
            == 0 {
            Seq::empty()
        } else {
            ": "@ + join(rets_texts(ret), ", "@)
        },
        KindModel::Union(ts) => join(types_texts(ts), " | "@),
        KindModel::Array(b) => type_text(*b) + "[]"@,
        KindModel::Tuple(ts) => "["@ + join(types_texts(ts), ", "@) + "]"@,
        KindModel::TableDef(fs) => "{ "@ + join(fields_texts(fs), ", "@) + " }"@,
        KindModel::UserDefined(n) => n,
        _ => match primitive_name(t.inner) {
            Some(n) => n,
            None => Seq::empty(),
        },
    }
}

pub open spec fn types_texts(ts: Seq<TypeModel>) -> Seq<Seq<char>>
    decreases ts, 0int,
{
    if ts.len() == 0 {
        Seq::empty()
    } else {
        types_texts(ts.subrange(0, ts.len() - 1)).push(type_text(ts[ts.len() - 1]))
    }
}

pub open spec fn args_texts(a: Seq<(Seq<char>, TypeModel)>) -> Seq<Seq<char>>
    decreases a, 0int,
{
    if a.len() == 0 {
        Seq::empty()
    } else {
        args_texts(a.subrange(0, a.len() - 1)).push(
            a[a.len() - 1].0 + ": "@ + type_text(a[a.len() - 1].1),
        )
    }
}

pub open spec fn rets_texts(a: Seq<(Option<Seq<char>>, TypeModel)>) -> Seq<Seq<char>>
    decreases a, 0int,
{
    if a.len() == 0 {
        Seq::empty()
    } else {
        rets_texts(a.subrange(0, a.len() - 1)).push(
            match a[a.len() - 1].0 {
                Some(n) => n + ": "@,
                None => Seq::empty(),
            } + type_text(a[a.len() - 1].1),
        )
    }
}

pub open spec fn fields_texts(f: Seq<(TypeModel, TypeModel)>) -> Seq<Seq<char>>
    decreases f, 0int,
{
    if f.len() == 0 {
        Seq::empty()
    } else {
        fields_texts(f.subrange(0, f.len() - 1)).push(
            field_name_text(f[f.len() - 1].0) + ": "@ + type_text(f[f.len() - 1].1),
        )
    }
}

/// A type as the key of a table field: a name or a string literal as it
/// is, anything else in brackets.
pub open spec fn field_name_text(t: TypeModel) -> Seq<char>
    decreases t, 2int,
{
    if t.generics.len() == 0 && (t.inner is UserDefined || t.inner matches KindModel::Literal(
        LiteralModel::String(_),
    )) {
        type_text(t)
    } else {
        "["@ + type_text(t) + "]"@
    }
}

pub proof fn lemma_join_push(p: Seq<Seq<char>>, y: Seq<char>, sep: Seq<char>)
    ensures
        join(p.push(y), sep) == if p.len() == 0 {
            y
        } else {
            join(p, sep) + sep + y
        },
{
    assert(p.push(y).subrange(0, p.len() as int) =~= p);
}

pub proof fn lemma_types_texts(ts: Seq<TypeModel>)
    ensures
        types_texts(ts).len() == ts.len(),
    decreases ts.len(),
{
    if ts.len() > 0 {
        lemma_types_texts(ts.subrange(0, ts.len() - 1));
    }
}

pub proof fn lemma_args_texts(a: Seq<(Seq<char>, TypeModel)>)
    ensures
        args_texts(a).len() == a.len(),
    decreases a.len(),
{
    if a.len() > 0 {
        lemma_args_texts(a.subrange(0, a.len() - 1));
    }
}

pub proof fn lemma_rets_texts(a: Seq<(Option<Seq<char>>, TypeModel)>)
    ensures
        rets_texts(a).len() == a.len(),
    decreases a.len(),
{
    if a.len() > 0 {
        lemma_rets_texts(a.subrange(0, a.len() - 1));
    }
}

pub proof fn lemma_fields_texts(f: Seq<(TypeModel, TypeModel)>)
    ensures
        fields_texts(f).len() == f.len(),
    decreases f.len(),
{
    if f.len() > 0 {
        lemma_fields_texts(f.subrange(0, f.len() - 1));
    }
}

/// The text of one decimal digit.
fn digit_text(d: u64) -> (r: &'static str)
    requires
        d < 10,
    ensures
        r@ == seq![seq!['0', '1', '2', '3', '4', '5', '6', '7', '8', '9'][d as int]],
{
    proof {
        reveal_strlit("0");
        reveal_strlit("1");
        reveal_strlit("2");
        reveal_strlit("3");
        reveal_strlit("4");
        reveal_strlit("5");
        reveal_strlit("6");
        reveal_strlit("7");
        reveal_strlit("8");
        reveal_strlit("9");
    }
    match d {
        0 => "0",
        1 => "1",
        2 => "2",
        3 => "3",
        4 => "4",
        5 => "5",
        6 => "6",
        7 => "7",
        8 => "8",
        _ => "9",
    }
}

fn write_nat(n: u64, out: &mut String)
    ensures
        final(out)@ == old(out)@ + nat_text(n as nat),
    decreases n,
{
    let ghost o0 = out@;
    if n >= 10 {
        write_nat(n / 10, out);
    }
    out.append(digit_text(n % 10));
    proof {
        assert(out@ =~= o0 + nat_text(n as nat));
    }
}

/// An integer in decimal.
fn integer_text(n: i64) -> (r: String)
    ensures
        r@ == int_text(n as int),
{
    let mut out = String::new();
    if n < 0 {
        proof {
            reveal_strlit("-");
        }
        out.append("-");
        let m: u64 = if n == i64::MIN {
            9223372036854775808u64
        } else {
            (-n) as u64
        };
        write_nat(m, &mut out);
    } else {
        write_nat(n as u64, &mut out);
    }
    proof {
        assert(out@ =~= int_text(n as int));
    }
    out
}

/// The name of a primitive kind.
fn primitive_text(k: &TypeInner) -> (r: &'static str)
    ensures
        primitive_name(kind_model(k)) matches Some(n) ==> r@ == n,
{
    match k {
        TypeInner::Nil => "nil",
        TypeInner::Any => "any",
        TypeInner::Boolean => "boolean",
        TypeInner::String => "string",
        TypeInner::Number => "number",
        TypeInner::Integer => "integer",
        TypeInner::Table => "table",
        TypeInner::Thread => "thread",
        TypeInner::Userdata => "userdata",
        TypeInner::LightUserdata => "lightuserdata",
        _ => "",
    }
}

impl Type {
    /// The text of the type in the annotation language; nullability is not
    /// shown.
    pub fn to_text(&self) -> (r: String)
        ensures
            r@ == type_text(self@),
        decreases self, 2int,
    {
        let mut out = String::new();
        self.write_text(&mut out);
        proof {
            assert(out@ =~= type_text(self@));
        }
        out
    }

    pub fn write_text(&self, out: &mut String)
        ensures
            final(out)@ == old(out)@ + type_text(self@),
        decreases self, 1int,
    {
        let ghost o0 = out@;
        proof {
            assert(decreases_to!(*self => self.generics));
        }
        self.write_kind(out);
        let ghost o1 = out@;
        proof {
            lemma_types_model(self.generics@);
        }
        if self.generics.len() > 0 {
            out.append("<");
            write_types(&self.generics, ", ", out);
            out.append(">");
        }
        proof {
            assert(out@ =~= o0 + type_text(self@));
        }
    }

    fn write_kind(&self, out: &mut String)
        ensures
            final(out)@ == old(out)@ + kind_text(self@),
        decreases self, 0int,
    {
        let ghost o0 = out@;
        proof {
            assert(decreases_to!(*self => self.inner));
        }
        match &self.inner {
            TypeInner::Literal(l) => match l {
                Literal::Boolean(b) => if *b {
                    out.append("true")
                } else {
                    out.append("false")
                },
                Literal::String(x) => out.append(x.as_str()),
                Literal::Number(x) => out.append(x.as_str()),
                Literal::Integer(n) => {
                    let t = integer_text(*n);
                    out.append(t.as_str());
                },
            },
            TypeInner::Function { args, ret } => {
                out.append("fun(");
                write_args(args, out);
                out.append(")");
                proof {
                    lemma_rets_model(ret@);
                }
                if ret.len() > 0 {
                    out.append(": ");
                    write_rets(ret, out);
                }
                proof {
                    assert(out@ =~= o0 + kind_text(self@));
                }
            },
            TypeInner::Union(ts) => write_types(ts, " | ", out),
            TypeInner::Array(b) => {
                b.write_text(out);
                out.append("[]");
                proof {
                    assert(out@ =~= o0 + kind_text(self@));
                }
            },
            TypeInner::Tuple(ts) => {
                out.append("[");
                write_types(ts, ", ", out);
                out.append("]");
                proof {
                    assert(out@ =~= o0 + kind_text(self@));
                }
            },
            TypeInner::TableDef(d) => {
                out.append("{ ");
                write_fields(&d.fields, out);
                out.append(" }");
                proof {
                    assert(out@ =~= o0 + kind_text(self@));
                }
            },
            TypeInner::UserDefined(n) => out.append(n.as_str()),
            _ => out.append(primitive_text(&self.inner)),
        }
    }

    /// The type as the key of a table field: a name or a string literal as
    /// it is, anything else in brackets.
    pub fn format_as_table_field_name(&self) -> (r: String)
        ensures
            r@ == field_name_text(self@),
        decreases self, 3int,
    {
        proof {
            lemma_types_model(self.generics@);
        }
        let plain = self.generics.len() == 0 && match &self.inner {
            TypeInner::UserDefined(_) => true,
            TypeInner::Literal(Literal::String(_)) => true,
            _ => false,
        };
        if plain {
            self.to_text()
        } else {
            let mut out = String::new();
            out.append("[");
            self.write_text(&mut out);
            out.append("]");
            proof {
                assert(out@ =~= field_name_text(self@));
            }
            out
        }
    }
}

#[verifier::rlimit(40)]
pub fn write_types(v: &Vec<Type>, sep: &str, out: &mut String)
    ensures
        final(out)@ == old(out)@ + join(types_texts(types_model(v@)), sep@),
    decreases v, 0int,
{
    let ghost o0 = out@;
    let mut i: usize = 0;
    proof {
        assert(v@.subrange(0, 0) =~= Seq::<Type>::empty());
        assert(out@ =~= o0 + join(types_texts(types_model(v@.subrange(0, 0))), sep@));
    }
    while i < v.len()
        invariant
            i <= v@.len(),
            out@ == o0 + join(types_texts(types_model(v@.subrange(0, i as int))), sep@),
        decreases v@.len() - i,
    {
        let ghost m = types_model(v@.subrange(0, i as int));
        proof {
            assert(decreases_to!(*v => v[i as int]));
            lemma_types_model_prefix(v@, i as int);
            lemma_types_model(v@.subrange(0, i as int));
            lemma_types_texts(m);
            assert(m.push(type_model(&v@[i as int])).subrange(0, m.len() as int) =~= m);
            lemma_join_push(types_texts(m), type_text(v@[i as int]@), sep@);
        }
        if i > 0 {
            out.append(sep);
        }
        v[i].write_text(out);
        i = i + 1;
        proof {
            assert(out@ =~= o0 + join(types_texts(types_model(v@.subrange(0, i as int))), sep@));
        }
    }
    proof {
        assert(v@.subrange(0, i as int) =~= v@);
    }
}

#[verifier::rlimit(40)]
pub fn write_args(v: &Vec<(String, Type)>, out: &mut String)
    ensures
        final(out)@ == old(out)@ + join(args_texts(args_model(v@)), ", "@),
    decreases v, 0int,
{
    let ghost o0 = out@;
    let mut i: usize = 0;
    proof {
        assert(v@.subrange(0, 0) =~= Seq::<(String, Type)>::empty());
        assert(out@ =~= o0 + join(args_texts(args_model(v@.subrange(0, 0))), ", "@));
    }
    while i < v.len()
        invariant
            i <= v@.len(),
            out@ == o0 + join(args_texts(args_model(v@.subrange(0, i as int))), ", "@),
        decreases v@.len() - i,
    {
        let ghost m = args_model(v@.subrange(0, i as int));
        let ghost x = (v@[i as int].0@, v@[i as int].1@);
        proof {
            assert(decreases_to!(*v => v[i as int]));
            assert(decreases_to!(v[i as int] => v[i as int].1));
            assert(v@.subrange(0, i + 1).subrange(0, i as int) =~= v@.subrange(0, i as int));
            assert(args_model(v@.subrange(0, i + 1)) == m.push(x));
            lemma_args_texts(m);
            assert(m.push(x).subrange(0, m.len() as int) =~= m);
            lemma_join_push(args_texts(m), x.0 + ": "@ + type_text(x.1), ", "@);
        }
        if i > 0 {
            out.append(", ");
        }
        out.append(v[i].0.as_str());
        out.append(": ");
        v[i].1.write_text(out);
        i = i + 1;
        proof {
            assert(out@ =~= o0 + join(args_texts(args_model(v@.subrange(0, i as int))), ", "@));
        }
    }
    proof {
        assert(v@.subrange(0, i as int) =~= v@);
    }
}

#[verifier::rlimit(40)]
pub fn write_rets(v: &Vec<(Option<String>, Type)>, out: &mut String)
    ensures
        final(out)@ == old(out)@ + join(rets_texts(rets_model(v@)), ", "@),
    decreases v, 0int,
{
    let ghost o0 = out@;
    let mut i: usize = 0;
    proof {
        assert(v@.subrange(0, 0) =~= Seq::<(Option<String>, Type)>::empty());
        assert(out@ =~= o0 + join(rets_texts(rets_model(v@.subrange(0, 0))), ", "@));
    }
    while i < v.len()
        invariant
            i <= v@.len(),
            out@ == o0 + join(rets_texts(rets_model(v@.subrange(0, i as int))), ", "@),
        decreases v@.len() - i,
    {
        let ghost m = rets_model(v@.subrange(0, i as int));
        let ghost x = (opt_str_model(v@[i as int].0), v@[i as int].1@);
        let ghost name_part = match x.0 {
            Some(n) => n + ": "@,
            None => Seq::<char>::empty(),
        };
        proof {
            assert(decreases_to!(*v => v[i as int]));
            assert(decreases_to!(v[i as int] => v[i as int].1));
            assert(v@.subrange(0, i + 1).subrange(0, i as int) =~= v@.subrange(0, i as int));
            assert(rets_model(v@.subrange(0, i + 1)) == m.push(x));
            lemma_rets_texts(m);
            assert(m.push(x).subrange(0, m.len() as int) =~= m);
            lemma_join_push(rets_texts(m), name_part + type_text(x.1), ", "@);
        }
        if i > 0 {
            out.append(", ");
        }
        match &v[i].0 {
            Some(n) => {
                out.append(n.as_str());
                out.append(": ");
            },
            None => {},
        }
        v[i].1.write_text(out);
        i = i + 1;
        proof {
            assert(out@ =~= o0 + join(rets_texts(rets_model(v@.subrange(0, i as int))), ", "@));
        }
    }
    proof {
        assert(v@.subrange(0, i as int) =~= v@);
    }
}

#[verifier::rlimit(40)]
pub fn write_fields(v: &Vec<(Type, Type)>, out: &mut String)
    ensures
        final(out)@ == old(out)@ + join(fields_texts(fields_model(v@)), ", "@),
    decreases v, 0int,
{
    let ghost o0 = out@;
    let mut i: usize = 0;
    proof {
        assert(v@.subrange(0, 0) =~= Seq::<(Type, Type)>::empty());
        assert(out@ =~= o0 + join(fields_texts(fields_model(v@.subrange(0, 0))), ", "@));
    }
    while i < v.len()
        invariant
            i <= v@.len(),
            out@ == o0 + join(fields_texts(fields_model(v@.subrange(0, i as int))), ", "@),
        decreases v@.len() - i,
    {
        let ghost m = fields_model(v@.subrange(0, i as int));
        let ghost x = (v@[i as int].0@, v@[i as int].1@);
        proof {
            assert(decreases_to!(*v => v[i as int]));
            assert(decreases_to!(v[i as int] => v[i as int].0));
            assert(decreases_to!(v[i as int] => v[i as int].1));
            assert(v@.subrange(0, i + 1).subrange(0, i as int) =~= v@.subrange(0, i as int));
            assert(fields_model(v@.subrange(0, i + 1)) == m.push(x));
            lemma_fields_texts(m);
            assert(m.push(x).subrange(0, m.len() as int) =~= m);
            lemma_join_push(fields_texts(m), field_name_text(x.0) + ": "@ + type_text(x.1), ", "@);
        }
        if i > 0 {
            out.append(", ");
        }
        let key = v[i].0.format_as_table_field_name();
        out.append(key.as_str());
        out.append(": ");
        v[i].1.write_text(out);
        i = i + 1;
        proof {
            assert(out@ =~= o0 + join(fields_texts(fields_model(v@.subrange(0, i as int))), ", "@));
        }
    }
    proof {
        assert(v@.subrange(0, i as int) =~= v@);
    }
}

// ---------------------------------------------------------------------------
// Source text
// ---------------------------------------------------------------------------

/// How many returns a function type has; none for other types.
pub open spec fn fun_returns(t: TypeModel) -> nat {
    match t.inner {
        KindModel::Function { ret, .. } => ret.len(),
        _ => 0,
    }
}

pub open spec fn paren(x: Seq<char>) -> Seq<char> {
    "("@ + x + ")"@
}

/// A name that the grammar reads as an identifier.
pub open spec fn is_ident_text(n: Seq<char>) -> bool {
    n.len() > 0 && forall|i: int|
        0 <= i < n.len() ==> (('a' <= #[trigger] n[i] && n[i] <= 'z') || ('A' <= n[i] && n[i] <= 'Z')
            || n[i] == '_' || (i > 0 && '0' <= n[i] && n[i] <= '9'))
}

/// A table key that can be written as a bare name.
pub open spec fn plain_key(k: TypeModel) -> bool {
    k.generics.len() == 0 && match k.inner {
        KindModel::Literal(LiteralModel::String(n)) => is_ident_text(n),
        _ => false,
    }
}

/// Source text of the type in the annotation language, with parentheses
/// where the grammar would otherwise read it differently; its nullability
/// is written only where `show` holds.
pub open spec fn source_text(t: TypeModel, show: bool) -> Seq<char>
    decreases t, 3int,
{
    let fwr = fun_returns(t) > 0;
    let core = if t.generics.len() > 0 {
        (if t.inner is Union || fwr || t.inner is Array {
            paren(kind_source(t))
        } else {
            kind_source(t)
        }) + "<"@ + join(nested_sources(t.generics), ", "@) + ">"@
    } else if show && t.nullable && (fwr || t.inner is Union) {
        paren(kind_source(t))
    } else {
        kind_source(t)
    };
    core + if show && t.nullable {
        "?"@
    } else {
        Seq::empty()
    }
}

/// The source of a type that stands before a comma or a closing bracket.
pub open spec fn nested_source(t: TypeModel, show: bool) -> Seq<char>
    decreases t, 4int,
{
    if fun_returns(t) > 0 {
        paren(source_text(t, show))
    } else {
        source_text(t, show)
    }
}

/// The source of a type that a suffix follows, or that is one of the
/// alternatives of a union.
pub open spec fn wrapped_source(t: TypeModel) -> Seq<char>
    decreases t, 4int,
{
    if t.nullable || fun_returns(t) > 0 || t.inner is Union {
        paren(source_text(t, true))
    } else {
        source_text(t, true)
    }
}

pub open spec fn kind_source(t: TypeModel) -> Seq<char>
    decreases t, 2int,
{
    match t.inner {
        KindModel::Function { args, ret } => "fun("@ + join(args_sources(args), ", "@) + ")"@ + if ret.len()
            > 0 {
            ": "@ + join(rets_sources(ret), ", "@)
        } else {
            Seq::empty()
        },
        KindModel::Union(ts) => join(wrapped_sources(ts), " | "@),
        KindModel::Array(b) => wrapped_source(*b) + "[]"@,
        KindModel::Tuple(ts) => "["@ + join(nested_sources(ts), ", "@) + "]"@,
        KindModel::TableDef(fs) => "{ "@ + join(fields_sources(fs), ", "@) + " }"@,
        _ => kind_text(t),
    }
}

pub open spec fn nested_sources(ts: Seq<TypeModel>) -> Seq<Seq<char>>
    decreases ts, 0int,
{
    if ts.len() == 0 {
        Seq::empty()
    } else {
        nested_sources(ts.subrange(0, ts.len() - 1)).push(nested_source(ts[ts.len() - 1], true))
    }
}

pub open spec fn wrapped_sources(ts: Seq<TypeModel>) -> Seq<Seq<char>>
    decreases ts, 0int,
{
    if ts.len() == 0 {
        Seq::empty()
    } else {
        wrapped_sources(ts.subrange(0, ts.len() - 1)).push(wrapped_source(ts[ts.len() - 1]))
    }
}

pub open spec fn args_sources(a: Seq<(Seq<char>, TypeModel)>) -> Seq<Seq<char>>
    decreases a, 0int,
{
    if a.len() == 0 {
        Seq::empty()
    } else {
        let x = a[a.len() - 1];
        args_sources(a.subrange(0, a.len() - 1)).push(
            x.0 + nullable_mark(x.1) + ": "@ + nested_source(x.1, false),
        )
    }
}

pub open spec fn rets_sources(a: Seq<(Option<Seq<char>>, TypeModel)>) -> Seq<Seq<char>>
    decreases a, 0int,
{
    if a.len() == 0 {
        Seq::empty()
    } else {
        let x = a[a.len() - 1];
        rets_sources(a.subrange(0, a.len() - 1)).push(
            match x.0 {
                Some(n) => n + ": "@,
                None => Seq::empty(),
            } + nested_source(x.1, true),
        )
    }
}

pub open spec fn fields_sources(f: Seq<(TypeModel, TypeModel)>) -> Seq<Seq<char>>
    decreases f, 0int,
{
    if f.len() == 0 {
        Seq::empty()
    } else {
        fields_sources(f.subrange(0, f.len() - 1)).push(field_source(f[f.len() - 1]))
    }
}

/// The source of one field of a table shape: its key, a `?` where the key
/// is nullable, and its value.
pub open spec fn field_source(x: (TypeModel, TypeModel)) -> Seq<char>
    decreases x, 5int,
{
    (if plain_key(x.0) {
        kind_source(x.0)
    } else {
        "["@ + source_text(x.0, false) + "]"@
    }) + nullable_mark(x.0) + ": "@ + nested_source(x.1, true)
}

proof fn lemma_nested_sources_len(ts: Seq<TypeModel>)
    ensures
        nested_sources(ts).len() == ts.len(),
    decreases ts.len(),
{
    if ts.len() > 0 {
        lemma_nested_sources_len(ts.subrange(0, ts.len() - 1));
    }
}

proof fn lemma_wrapped_sources_len(ts: Seq<TypeModel>)
    ensures
        wrapped_sources(ts).len() == ts.len(),
    decreases ts.len(),
{
    if ts.len() > 0 {
        lemma_wrapped_sources_len(ts.subrange(0, ts.len() - 1));
    }
}

proof fn lemma_args_sources_len(a: Seq<(Seq<char>, TypeModel)>)
    ensures
        args_sources(a).len() == a.len(),
    decreases a.len(),
{
    if a.len() > 0 {
        lemma_args_sources_len(a.subrange(0, a.len() - 1));
    }
}

proof fn lemma_rets_sources_len(a: Seq<(Option<Seq<char>>, TypeModel)>)
    ensures
        rets_sources(a).len() == a.len(),
    decreases a.len(),
{
    if a.len() > 0 {
        lemma_rets_sources_len(a.subrange(0, a.len() - 1));
    }
}

proof fn lemma_fields_sources_len(f: Seq<(TypeModel, TypeModel)>)
    ensures
        fields_sources(f).len() == f.len(),
    decreases f.len(),
{
    if f.len() > 0 {
        lemma_fields_sources_len(f.subrange(0, f.len() - 1));
    }
}

fn returns_count(t: &Type) -> (r: usize)
    ensures
        r == fun_returns(t@),
{
    match &t.inner {
        TypeInner::Function { ret, .. } => {
            proof {
                lemma_rets_model(ret@);
            }
            ret.len()
        },
        _ => 0,
    }
}

fn is_union(t: &Type) -> (r: bool)
    ensures
        r == (t@.inner is Union),
{
    match &t.inner {
        TypeInner::Union(_) => true,
        _ => false,
    }
}

fn is_array(t: &Type) -> (r: bool)
    ensures
        r == (t@.inner is Array),
{
    match &t.inner {
        TypeInner::Array(_) => true,
        _ => false,
    }
}

/// Whether the text is an identifier of the annotation language.
fn is_identifier(s: &String) -> (r: bool)
    ensures
        r == is_ident_text(s@),
{
    let n = s.as_str().unicode_len();
    if n == 0 {
        return false;
    }
    let mut i: usize = 0;
    while i < n
        invariant
            n == s@.len(),
            i <= n,
            forall|k: int|
                0 <= k < i ==> (('a' <= #[trigger] s@[k] && s@[k] <= 'z') || ('A' <= s@[k] && s@[k]
                    <= 'Z') || s@[k] == '_' || (k > 0 && '0' <= s@[k] && s@[k] <= '9')),
        decreases n - i,
    {
        let c = s.as_str().get_char(i);
        let alpha = ('a' <= c && c <= 'z') || ('A' <= c && c <= 'Z') || c == '_';
        if !(alpha || (i > 0 && '0' <= c && c <= '9')) {
            return false;
        }
        i = i + 1;
    }
    true
}

fn is_plain_key(k: &Type) -> (r: bool)
    ensures
        r == plain_key(k@),
{
    proof {
        lemma_types_model(k.generics@);
    }
    k.generics.len() == 0 && match &k.inner {
        TypeInner::Literal(Literal::String(n)) => is_identifier(n),
        _ => false,
    }
}

impl Type {
    /// The type written in the annotation language, as `source_text`
    /// states: unlike `to_text`, it shows nullability and puts parentheses
    /// around unions and function types where a suffix, a `|` or a comma
    /// follows them. That parsing it gives the type back is proved for names
    /// only (`lemma_name_round_trip`).
    pub fn to_source(&self) -> (r: String)
        ensures
            r@ == source_text(self@, true),
    {
        let mut out = String::new();
        self.write_source(&mut out, true);
        proof {
            assert(out@ =~= source_text(self@, true));
        }
        out
    }

    fn write_source(&self, out: &mut String, show_nullable: bool)
        ensures
            final(out)@ == old(out)@ + source_text(self@, show_nullable),
        decreases self, 3int,
    {
        let ghost o0 = out@;
        proof {
            lemma_types_model(self.generics@);
            assert(decreases_to!(*self => self.generics));
        }
        let fun_with_returns = returns_count(self) > 0;
        if self.generics.len() > 0 {
            if is_union(self) || fun_with_returns || is_array(self) {
                out.append("(");
                self.write_kind_source(out);
                out.append(")");
            } else {
                self.write_kind_source(out);
            }
            out.append("<");
            nested_sources_exec(&self.generics, out);
            out.append(">");
        } else if show_nullable && self.nullable && (fun_with_returns || is_union(self)) {
            out.append("(");
            self.write_kind_source(out);
            out.append(")");
        } else {
            self.write_kind_source(out);
        }
        if show_nullable && self.nullable {
            out.append("?");
        }
        proof {
            assert(out@ =~= o0 + source_text(self@, show_nullable));
        }
    }

    fn write_nested_source(&self, out: &mut String, show_nullable: bool)
        ensures
            final(out)@ == old(out)@ + nested_source(self@, show_nullable),
        decreases self, 4int,
    {
        let ghost o0 = out@;
        if returns_count(self) > 0 {
            out.append("(");
            self.write_source(out, show_nullable);
            out.append(")");
            proof {
                assert(out@ =~= o0 + nested_source(self@, show_nullable));
            }
        } else {
            self.write_source(out, show_nullable);
        }
    }

    fn write_wrapped_source(&self, out: &mut String)
        ensures
            final(out)@ == old(out)@ + wrapped_source(self@),
        decreases self, 4int,
    {
        let ghost o0 = out@;
        if self.nullable || returns_count(self) > 0 || is_union(self) {
            out.append("(");
            self.write_source(out, true);
            out.append(")");
            proof {
                assert(out@ =~= o0 + wrapped_source(self@));
            }
        } else {
            self.write_source(out, true);
        }
    }

    fn write_kind_source(&self, out: &mut String)
        ensures
            final(out)@ == old(out)@ + kind_source(self@),
        decreases self, 2int,
    {
        let ghost o0 = out@;
        proof {
            assert(decreases_to!(*self => self.inner));
        }
        match &self.inner {
            TypeInner::Function { args, ret } => {
                out.append("fun(");
                args_sources_exec(args, out);
                out.append(")");
                proof {
                    lemma_rets_model(ret@);
                }
                if ret.len() > 0 {
                    out.append(": ");
                    rets_sources_exec(ret, out);
                }
                proof {
                    assert(out@ =~= o0 + kind_source(self@));
                }
            },
            TypeInner::Union(ts) => wrapped_sources_exec(ts, out),
            TypeInner::Array(b) => {
                b.write_wrapped_source(out);
                out.append("[]");
                proof {
                    assert(out@ =~= o0 + kind_source(self@));
                }
            },
            TypeInner::Tuple(ts) => {
                out.append("[");
                nested_sources_exec(ts, out);
                out.append("]");
                proof {
                    assert(out@ =~= o0 + kind_source(self@));
                }
            },
            TypeInner::TableDef(d) => {
                out.append("{ ");
                fields_sources_exec(&d.fields, out);
                out.append(" }");
                proof {
                    assert(out@ =~= o0 + kind_source(self@));
                }
            },
            _ => self.write_kind(out),
        }
    }
}

#[verifier::rlimit(40)]
fn nested_sources_exec(v: &Vec<Type>, out: &mut String)
    ensures
        final(out)@ == old(out)@ + join(nested_sources(types_model(v@)), ", "@),
    decreases v, 0int,
{
    let ghost o0 = out@;
    let mut i: usize = 0;
    proof {
        assert(v@.subrange(0, 0) =~= Seq::<Type>::empty());
        assert(out@ =~= o0 + join(nested_sources(types_model(v@.subrange(0, 0))), ", "@));
    }
    while i < v.len()
        invariant
            i <= v@.len(),
            out@ == o0 + join(nested_sources(types_model(v@.subrange(0, i as int))), ", "@),
        decreases v@.len() - i,
    {
        let ghost m = types_model(v@.subrange(0, i as int));
        proof {
            assert(decreases_to!(*v => v[i as int]));
            lemma_types_model_prefix(v@, i as int);
            lemma_types_model(v@.subrange(0, i as int));
            lemma_nested_sources_len(m);
            assert(m.push(type_model(&v@[i as int])).subrange(0, m.len() as int) =~= m);
            lemma_join_push(nested_sources(m), nested_source(v@[i as int]@, true), ", "@);
        }
        if i > 0 {
            out.append(", ");
        }
        v[i].write_nested_source(out, true);
        i = i + 1;
        proof {
            assert(out@ =~= o0 + join(nested_sources(types_model(v@.subrange(0, i as int))), ", "@));
        }
    }
    proof {
        assert(v@.subrange(0, i as int) =~= v@);
    }
}

#[verifier::rlimit(40)]
fn wrapped_sources_exec(v: &Vec<Type>, out: &mut String)
    ensures
        final(out)@ == old(out)@ + join(wrapped_sources(types_model(v@)), " | "@),
    decreases v, 0int,
{
    let ghost o0 = out@;
    let mut i: usize = 0;
    proof {
        assert(v@.subrange(0, 0) =~= Seq::<Type>::empty());
        assert(out@ =~= o0 + join(wrapped_sources(types_model(v@.subrange(0, 0))), " | "@));
    }
    while i < v.len()
        invariant
            i <= v@.len(),
            out@ == o0 + join(wrapped_sources(types_model(v@.subrange(0, i as int))), " | "@),
        decreases v@.len() - i,
    {
        let ghost m = types_model(v@.subrange(0, i as int));
        proof {
            assert(decreases_to!(*v => v[i as int]));
            lemma_types_model_prefix(v@, i as int);
            lemma_types_model(v@.subrange(0, i as int));
            lemma_wrapped_sources_len(m);
            assert(m.push(type_model(&v@[i as int])).subrange(0, m.len() as int) =~= m);
            lemma_join_push(wrapped_sources(m), wrapped_source(v@[i as int]@), " | "@);
        }
        if i > 0 {
            out.append(" | ");
        }
        v[i].write_wrapped_source(out);
        i = i + 1;
        proof {
            assert(out@ =~= o0 + join(wrapped_sources(types_model(v@.subrange(0, i as int))), " | "@));
        }
    }
    proof {
        assert(v@.subrange(0, i as int) =~= v@);
    }
}

#[verifier::rlimit(40)]
fn args_sources_exec(v: &Vec<(String, Type)>, out: &mut String)
    ensures
        final(out)@ == old(out)@ + join(args_sources(args_model(v@)), ", "@),
    decreases v, 0int,
{
    let ghost o0 = out@;
    let mut i: usize = 0;
    proof {
        assert(v@.subrange(0, 0) =~= Seq::<(String, Type)>::empty());
        assert(out@ =~= o0 + join(args_sources(args_model(v@.subrange(0, 0))), ", "@));
    }
    while i < v.len()
        invariant
            i <= v@.len(),
            out@ == o0 + join(args_sources(args_model(v@.subrange(0, i as int))), ", "@),
        decreases v@.len() - i,
    {
        let ghost m = args_model(v@.subrange(0, i as int));
        let ghost x = (v@[i as int].0@, v@[i as int].1@);
        proof {
            assert(decreases_to!(*v => v[i as int]));
            assert(decreases_to!(v[i as int] => v[i as int].1));
            assert(v@.subrange(0, i + 1).subrange(0, i as int) =~= v@.subrange(0, i as int));
            assert(args_model(v@.subrange(0, i + 1)) == m.push(x));
            lemma_args_sources_len(m);
            assert(m.push(x).subrange(0, m.len() as int) =~= m);
            lemma_join_push(
                args_sources(m),
                x.0 + nullable_mark(x.1) + ": "@ + nested_source(x.1, false),
                ", "@,
            );
        }
        if i > 0 {
            out.append(", ");
        }
        out.append(v[i].0.as_str());
        write_mark(&v[i].1, out);
        out.append(": ");
        v[i].1.write_nested_source(out, false);
        i = i + 1;
        proof {
            assert(out@ =~= o0 + join(args_sources(args_model(v@.subrange(0, i as int))), ", "@));
        }
    }
    proof {
        assert(v@.subrange(0, i as int) =~= v@);
    }
}

#[verifier::rlimit(40)]
fn rets_sources_exec(v: &Vec<(Option<String>, Type)>, out: &mut String)
    ensures
        final(out)@ == old(out)@ + join(rets_sources(rets_model(v@)), ", "@),
    decreases v, 0int,
{
    let ghost o0 = out@;
    let mut i: usize = 0;
    proof {
        assert(v@.subrange(0, 0) =~= Seq::<(Option<String>, Type)>::empty());
        assert(out@ =~= o0 + join(rets_sources(rets_model(v@.subrange(0, 0))), ", "@));
    }
    while i < v.len()
        invariant
            i <= v@.len(),
            out@ == o0 + join(rets_sources(rets_model(v@.subrange(0, i as int))), ", "@),
        decreases v@.len() - i,
    {
        let ghost m = rets_model(v@.subrange(0, i as int));
        let ghost x = (opt_str_model(v@[i as int].0), v@[i as int].1@);
        let ghost name_part = match x.0 {
            Some(n) => n + ": "@,
            None => Seq::<char>::empty(),
        };
        proof {
            assert(decreases_to!(*v => v[i as int]));
            assert(decreases_to!(v[i as int] => v[i as int].1));
            assert(v@.subrange(0, i + 1).subrange(0, i as int) =~= v@.subrange(0, i as int));
            assert(rets_model(v@.subrange(0, i + 1)) == m.push(x));
            lemma_rets_sources_len(m);
            assert(m.push(x).subrange(0, m.len() as int) =~= m);
            lemma_join_push(rets_sources(m), name_part + nested_source(x.1, true), ", "@);
        }
        if i > 0 {
            out.append(", ");
        }
        match &v[i].0 {
            Some(n) => {
                out.append(n.as_str());
                out.append(": ");
            },
            None => {},
        }
        v[i].1.write_nested_source(out, true);
        i = i + 1;
        proof {
            assert(out@ =~= o0 + join(rets_sources(rets_model(v@.subrange(0, i as int))), ", "@));
        }
    }
    proof {
        assert(v@.subrange(0, i as int) =~= v@);
    }
}

fn write_field_source(f: &(Type, Type), out: &mut String)
    ensures
        final(out)@ == old(out)@ + field_source((f.0@, f.1@)),
    decreases f, 6int,
{
    let ghost o0 = out@;
    let key = &f.0;
    let value = &f.1;
    proof {
        assert(decreases_to!(*f => f.0));
        assert(decreases_to!(*f => f.1));
    }
    if is_plain_key(key) {
        key.write_kind_source(out);
    } else {
        out.append("[");
        key.write_source(out, false);
        out.append("]");
    }
    write_mark(key, out);
    out.append(": ");
    value.write_nested_source(out, true);
    proof {
        assert(out@ =~= o0 + field_source((key@, value@)));
    }
}

#[verifier::rlimit(40)]
fn fields_sources_exec(v: &Vec<(Type, Type)>, out: &mut String)
    ensures
        final(out)@ == old(out)@ + join(fields_sources(fields_model(v@)), ", "@),
    decreases v, 0int,
{
    let ghost o0 = out@;
    let mut i: usize = 0;
    proof {
        assert(v@.subrange(0, 0) =~= Seq::<(Type, Type)>::empty());
        assert(out@ =~= o0 + join(fields_sources(fields_model(v@.subrange(0, 0))), ", "@));
    }
    while i < v.len()
        invariant
            i <= v@.len(),
            out@ == o0 + join(fields_sources(fields_model(v@.subrange(0, i as int))), ", "@),
        decreases v@.len() - i,
    {
        let ghost m = fields_model(v@.subrange(0, i as int));
        let ghost x = (v@[i as int].0@, v@[i as int].1@);
        proof {
            assert(decreases_to!(*v => v[i as int]));
            assert(decreases_to!(v[i as int] => v[i as int].0));
            assert(v@.subrange(0, i + 1).subrange(0, i as int) =~= v@.subrange(0, i as int));
            assert(fields_model(v@.subrange(0, i + 1)) == m.push(x));
            lemma_fields_sources_len(m);
            assert(m.push(x).subrange(0, m.len() as int) =~= m);
            lemma_join_push(fields_sources(m), field_source(x), ", "@);
        }
        if i > 0 {
            out.append(", ");
        }
        write_field_source(&v[i], out);
        i = i + 1;
        proof {
            assert(out@ =~= o0 + join(fields_sources(fields_model(v@.subrange(0, i as int))), ", "@));
        }
    }
    proof {
        assert(v@.subrange(0, i as int) =~= v@);
    }
}

// ---------------------------------------------------------------------------
// Text with links
// ---------------------------------------------------------------------------

/// The kind of entity each name refers to; a later entry for a name
/// replaces an earlier one.
pub struct IdentLookup {
    pub entries: Vec<(String, Metatype)>,
}

pub open spec fn lookup_map(s: Seq<(String, Metatype)>) -> Map<Seq<char>, Metatype>
    decreases s.len(),
{
    if s.len() == 0 {
        Map::empty()
    } else {
        lookup_map(s.subrange(0, s.len() - 1)).insert(s[s.len() - 1].0@, s[s.len() - 1].1)
    }
}

impl View for IdentLookup {
    type V = Map<Seq<char>, Metatype>;

    open spec fn view(&self) -> Map<Seq<char>, Metatype> {
        lookup_map(self.entries@)
    }
}

impl IdentLookup {
    pub fn new() -> (r: IdentLookup)
        ensures
            r@ == Map::<Seq<char>, Metatype>::empty(),
    {
        IdentLookup { entries: Vec::new() }
    }

    pub fn insert(&mut self, name: String, metatype: Metatype)
        ensures
            final(self)@ == old(self)@.insert(name@, metatype),
    {
        let ghost e0 = self.entries@;
        self.entries.push((name, metatype));
        proof {
            assert(self.entries@.subrange(0, e0.len() as int) =~= e0);
        }
    }

    pub fn get(&self, name: &String) -> (r: Option<Metatype>)
        ensures
            match r {
                Some(m) => self@.contains_key(name@) && self@[name@] == m,
                None => !self@.contains_key(name@),
            },
    {
        let mut i = self.entries.len();
        proof {
            assert(self.entries@.subrange(0, i as int) =~= self.entries@);
        }
        while i > 0
            invariant
                i <= self.entries@.len(),
                lookup_map(self.entries@).contains_key(name@) == lookup_map(
                    self.entries@.subrange(0, i as int),
                ).contains_key(name@),
                lookup_map(self.entries@).contains_key(name@) ==> lookup_map(self.entries@)[name@]
                    == lookup_map(self.entries@.subrange(0, i as int))[name@],
            decreases i,
        {
            proof {
                assert(self.entries@.subrange(0, i as int).subrange(0, i - 1) =~= self.entries@.subrange(
                    0,
                    i - 1,
                ));
            }
            if self.entries[i - 1].0 == *name {
                return Some(self.entries[i - 1].1);
            }
            i = i - 1;
        }
        proof {
            assert(self.entries@.subrange(0, 0) =~= Seq::<(String, Metatype)>::empty());
        }
        None
    }
}

/// The section of the site that holds pages of the kind.
pub open spec fn section(m: Metatype) -> Seq<char> {
    match m {
        Metatype::Class => "classes"@,
        Metatype::Alias => "aliases"@,
        Metatype::Enum => "enums"@,
    }
}

/// A name as the text of a link: a leading underscore is written as an
/// entity.
pub open spec fn sanitized(n: Seq<char>) -> Seq<char> {
    if n.len() > 0 && n[0] == '_' {
        "&#95;"@ + n.subrange(1, n.len() as int)
    } else {
        n
    }
}

/// A name, linked to its page where the lookup knows it.
pub open spec fn link_name(n: Seq<char>, lk: Map<Seq<char>, Metatype>, base: Seq<char>) -> Seq<char> {
    if lk.contains_key(n) {
        "<a href=\""@ + base + section(lk[n]) + "/"@ + n + "\">"@ + sanitized(n) + "</a>"@
    } else {
        n
    }
}

pub open spec fn nullable_mark(t: TypeModel) -> Seq<char> {
    if t.nullable {
        "?"@
    } else {
        Seq::empty()
    }
}

/// The text of a type for a page: names are linked, nullability of
/// arguments, returns and table values is shown, and generics are escaped.
pub open spec fn links_text(t: TypeModel, lk: Map<Seq<char>, Metatype>, base: Seq<char>) -> Seq<char>
    decreases t, 1int,
{
    links_kind(t, lk, base) + if t.generics.len() == 0 {
        Seq::empty()
    } else {
        "&lt;"@ + join(links_types(t.generics, lk, base), ", "@) + ">"@
    }
}

pub open spec fn links_kind(t: TypeModel, lk: Map<Seq<char>, Metatype>, base: Seq<char>) -> Seq<char>
    decreases t, 0int,
{
    match t.inner {
        KindModel::Function { args, ret } => "fun("@ + join(links_args(args, lk, base), ", "@) + ")"@
            + if ret.len() == 0 {
            Seq::empty()
        } else {
            ": "@ + join(links_rets(ret, lk, base), ", "@)
        },
        KindModel::Union(ts) => join(links_types(ts, lk, base), " | "@),
        KindModel::Array(b) => links_text(*b, lk, base) + "[]"@,
        KindModel::Tuple(ts) => "["@ + join(links_types(ts, lk, base), ", "@) + "]"@,
        KindModel::TableDef(fs) => "{ "@ + join(links_fields(fs, lk, base), ", "@) + " }"@,
        KindModel::UserDefined(n) => link_name(n, lk, base),
        _ => kind_text(t),
    }
}

pub open spec fn links_types(ts: Seq<TypeModel>, lk: Map<Seq<char>, Metatype>, base: Seq<char>) -> Seq<
    Seq<char>,
>
    decreases ts, 0int,
{
    if ts.len() == 0 {
        Seq::empty()
    } else {
        links_types(ts.subrange(0, ts.len() - 1), lk, base).push(
            links_text(ts[ts.len() - 1], lk, base),
        )
    }
}

pub open spec fn links_args(
    a: Seq<(Seq<char>, TypeModel)>,
    lk: Map<Seq<char>, Metatype>,
    base: Seq<char>,
) -> Seq<Seq<char>>
    decreases a, 0int,
{
    if a.len() == 0 {
        Seq::empty()
    } else {
        let x = a[a.len() - 1];
        links_args(a.subrange(0, a.len() - 1), lk, base).push(
            x.0 + nullable_mark(x.1) + ": "@ + links_text(x.1, lk, base),
        )
    }
}

pub open spec fn links_rets(
    a: Seq<(Option<Seq<char>>, TypeModel)>,
    lk: Map<Seq<char>, Metatype>,
    base: Seq<char>,
) -> Seq<Seq<char>>
    decreases a, 0int,
{
    if a.len() == 0 {
        Seq::empty()
    } else {
        let x = a[a.len() - 1];
        links_rets(a.subrange(0, a.len() - 1), lk, base).push(
            match x.0 {
                Some(n) => n + ": "@,
                None => Seq::empty(),
            } + links_text(x.1, lk, base) + nullable_mark(x.1),
        )
    }
}

pub open spec fn links_fields(
    f: Seq<(TypeModel, TypeModel)>,
    lk: Map<Seq<char>, Metatype>,
    base: Seq<char>,
) -> Seq<Seq<char>>
    decreases f, 0int,
{
    if f.len() == 0 {
        Seq::empty()
    } else {
        let x = f[f.len() - 1];
        links_fields(f.subrange(0, f.len() - 1), lk, base).push(
            field_name_text(x.0) + nullable_mark(x.1) + ": "@ + links_text(x.1, lk, base),
        )
    }
}

proof fn lemma_links_types_len(ts: Seq<TypeModel>, lk: Map<Seq<char>, Metatype>, base: Seq<char>)
    ensures
        links_types(ts, lk, base).len() == ts.len(),
    decreases ts.len(),
{
    if ts.len() > 0 {
        lemma_links_types_len(ts.subrange(0, ts.len() - 1), lk, base);
    }
}

proof fn lemma_links_args_len(
    a: Seq<(Seq<char>, TypeModel)>,
    lk: Map<Seq<char>, Metatype>,
    base: Seq<char>,
)
    ensures
        links_args(a, lk, base).len() == a.len(),
    decreases a.len(),
{
    if a.len() > 0 {
        lemma_links_args_len(a.subrange(0, a.len() - 1), lk, base);
    }
}

proof fn lemma_links_rets_len(
    a: Seq<(Option<Seq<char>>, TypeModel)>,
    lk: Map<Seq<char>, Metatype>,
    base: Seq<char>,
)
    ensures
        links_rets(a, lk, base).len() == a.len(),
    decreases a.len(),
{
    if a.len() > 0 {
        lemma_links_rets_len(a.subrange(0, a.len() - 1), lk, base);
    }
}

proof fn lemma_links_fields_len(
    f: Seq<(TypeModel, TypeModel)>,
    lk: Map<Seq<char>, Metatype>,
    base: Seq<char>,
)
    ensures
        links_fields(f, lk, base).len() == f.len(),
    decreases f.len(),
{
    if f.len() > 0 {
        lemma_links_fields_len(f.subrange(0, f.len() - 1), lk, base);
    }
}

/// The section of the site that holds pages of the kind.
pub fn section_text(m: Metatype) -> (r: &'static str)
    ensures
        r@ == section(m),
{
    match m {
        Metatype::Class => "classes",
        Metatype::Alias => "aliases",
        Metatype::Enum => "enums",
    }
}

fn write_link_name(n: &String, lk: &IdentLookup, base: &str, out: &mut String)
    ensures
        final(out)@ == old(out)@ + link_name(n@, lk@, base@),
{
    let ghost o0 = out@;
    match lk.get(n) {
        Some(m) => {
            out.append("<a href=\"");
            out.append(base);
            out.append(section_text(m));
            out.append("/");
            out.append(n.as_str());
            out.append("\">");
            let len = n.as_str().unicode_len();
            if len > 0 && n.as_str().get_char(0) == '_' {
                out.append("&#95;");
                out.append(n.as_str().substring_char(1, len));
            } else {
                out.append(n.as_str());
            }
            out.append("</a>");
            proof {
                assert(out@ =~= o0 + link_name(n@, lk@, base@));
            }
        },
        None => out.append(n.as_str()),
    }
}

fn write_mark(t: &Type, out: &mut String)
    ensures
        final(out)@ == old(out)@ + nullable_mark(t@),
{
    if t.nullable {
        out.append("?");
    } else {
        proof {
            assert(out@ =~= out@ + Seq::<char>::empty());
        }
    }
}

impl Type {
    /// The text of the type for a page of the site: names that the lookup
    /// knows link to their pages under `base_url`.
    pub fn format_with_links(&self, ident_lookup: &IdentLookup, base_url: &str) -> (r: String)
        ensures
            r@ == links_text(self@, ident_lookup@, base_url@),
    {
        let mut out = String::new();
        self.write_links(ident_lookup, base_url, &mut out);
        proof {
            assert(out@ =~= links_text(self@, ident_lookup@, base_url@));
        }
        out
    }

    pub fn write_links(&self, lk: &IdentLookup, base: &str, out: &mut String)
        ensures
            final(out)@ == old(out)@ + links_text(self@, lk@, base@),
        decreases self, 1int,
    {
        let ghost o0 = out@;
        proof {
            assert(decreases_to!(*self => self.generics));
        }
        self.write_links_kind(lk, base, out);
        proof {
            lemma_types_model(self.generics@);
        }
        if self.generics.len() > 0 {
            out.append("&lt;");
            links_types_exec(&self.generics, lk, base, ", ", out);
            out.append(">");
        }
        proof {
            assert(out@ =~= o0 + links_text(self@, lk@, base@));
        }
    }

    fn write_links_kind(&self, lk: &IdentLookup, base: &str, out: &mut String)
        ensures
            final(out)@ == old(out)@ + links_kind(self@, lk@, base@),
        decreases self, 0int,
    {
        let ghost o0 = out@;
        proof {
            assert(decreases_to!(*self => self.inner));
        }
        match &self.inner {
            TypeInner::Function { args, ret } => {
                out.append("fun(");
                links_args_exec(args, lk, base, out);
                out.append(")");
                proof {
                    lemma_rets_model(ret@);
                }
                if ret.len() > 0 {
                    out.append(": ");
                    links_rets_exec(ret, lk, base, out);
                }
                proof {
                    assert(out@ =~= o0 + links_kind(self@, lk@, base@));
                }
            },
            TypeInner::Union(ts) => links_types_exec(ts, lk, base, " | ", out),
            TypeInner::Array(b) => {
                b.write_links(lk, base, out);
                out.append("[]");
                proof {
                    assert(out@ =~= o0 + links_kind(self@, lk@, base@));
                }
            },
            TypeInner::Tuple(ts) => {
                out.append("[");
                links_types_exec(ts, lk, base, ", ", out);
                out.append("]");
                proof {
                    assert(out@ =~= o0 + links_kind(self@, lk@, base@));
                }
            },
            TypeInner::TableDef(d) => {
                out.append("{ ");
                links_fields_exec(&d.fields, lk, base, out);
                out.append(" }");
                proof {
                    assert(out@ =~= o0 + links_kind(self@, lk@, base@));
                }
            },
            TypeInner::UserDefined(n) => write_link_name(n, lk, base, out),
            _ => self.write_kind(out),
        }
    }
}

#[verifier::rlimit(40)]
fn links_types_exec(v: &Vec<Type>, lk: &IdentLookup, base: &str, sep: &str, out: &mut String)
    ensures
        final(out)@ == old(out)@ + join(links_types(types_model(v@), lk@, base@), sep@),
    decreases v, 0int,
{
    let ghost o0 = out@;
    let mut i: usize = 0;
    proof {
        assert(v@.subrange(0, 0) =~= Seq::<Type>::empty());
        assert(out@ =~= o0 + join(links_types(types_model(v@.subrange(0, 0)), lk@, base@), sep@));
    }
    while i < v.len()
        invariant
            i <= v@.len(),
            out@ == o0 + join(links_types(types_model(v@.subrange(0, i as int)), lk@, base@), sep@),
        decreases v@.len() - i,
    {
        let ghost m = types_model(v@.subrange(0, i as int));
        proof {
            assert(decreases_to!(*v => v[i as int]));
            lemma_types_model_prefix(v@, i as int);
            lemma_types_model(v@.subrange(0, i as int));
            lemma_links_types_len(m, lk@, base@);
            assert(m.push(type_model(&v@[i as int])).subrange(0, m.len() as int) =~= m);
            lemma_join_push(links_types(m, lk@, base@), links_text(v@[i as int]@, lk@, base@), sep@);
        }
        if i > 0 {
            out.append(sep);
        }
        v[i].write_links(lk, base, out);
        i = i + 1;
        proof {
            assert(out@ =~= o0 + join(
                links_types(types_model(v@.subrange(0, i as int)), lk@, base@),
                sep@,
            ));
        }
    }
    proof {
        assert(v@.subrange(0, i as int) =~= v@);
    }
}

#[verifier::rlimit(40)]
fn links_args_exec(v: &Vec<(String, Type)>, lk: &IdentLookup, base: &str, out: &mut String)
    ensures
        final(out)@ == old(out)@ + join(links_args(args_model(v@), lk@, base@), ", "@),
    decreases v, 0int,
{
    let ghost o0 = out@;
    let mut i: usize = 0;
    proof {
        assert(v@.subrange(0, 0) =~= Seq::<(String, Type)>::empty());
        assert(out@ =~= o0 + join(links_args(args_model(v@.subrange(0, 0)), lk@, base@), ", "@));
    }
    while i < v.len()
        invariant
            i <= v@.len(),
            out@ == o0 + join(links_args(args_model(v@.subrange(0, i as int)), lk@, base@), ", "@),
        decreases v@.len() - i,
    {
        let ghost m = args_model(v@.subrange(0, i as int));
        let ghost x = (v@[i as int].0@, v@[i as int].1@);
        proof {
            assert(decreases_to!(*v => v[i as int]));
            assert(decreases_to!(v[i as int] => v[i as int].1));
            assert(v@.subrange(0, i + 1).subrange(0, i as int) =~= v@.subrange(0, i as int));
            assert(args_model(v@.subrange(0, i + 1)) == m.push(x));
            lemma_links_args_len(m, lk@, base@);
            assert(m.push(x).subrange(0, m.len() as int) =~= m);
            lemma_join_push(
                links_args(m, lk@, base@),
                x.0 + nullable_mark(x.1) + ": "@ + links_text(x.1, lk@, base@),
                ", "@,
            );
        }
        if i > 0 {
            out.append(", ");
        }
        out.append(v[i].0.as_str());
        write_mark(&v[i].1, out);
        out.append(": ");
        v[i].1.write_links(lk, base, out);
        i = i + 1;
        proof {
            assert(out@ =~= o0 + join(
                links_args(args_model(v@.subrange(0, i as int)), lk@, base@),
                ", "@,
            ));
        }
    }
    proof {
        assert(v@.subrange(0, i as int) =~= v@);
    }
}

#[verifier::rlimit(40)]
fn links_rets_exec(v: &Vec<(Option<String>, Type)>, lk: &IdentLookup, base: &str, out: &mut String)
    ensures
        final(out)@ == old(out)@ + join(links_rets(rets_model(v@), lk@, base@), ", "@),
    decreases v, 0int,
{
    let ghost o0 = out@;
    let mut i: usize = 0;
    proof {
        assert(v@.subrange(0, 0) =~= Seq::<(Option<String>, Type)>::empty());
        assert(out@ =~= o0 + join(links_rets(rets_model(v@.subrange(0, 0)), lk@, base@), ", "@));
    }
    while i < v.len()
        invariant
            i <= v@.len(),
            out@ == o0 + join(links_rets(rets_model(v@.subrange(0, i as int)), lk@, base@), ", "@),
        decreases v@.len() - i,
    {
        let ghost m = rets_model(v@.subrange(0, i as int));
        let ghost x = (opt_str_model(v@[i as int].0), v@[i as int].1@);
        let ghost name_part = match x.0 {
            Some(n) => n + ": "@,
            None => Seq::<char>::empty(),
        };
        proof {
            assert(decreases_to!(*v => v[i as int]));
            assert(decreases_to!(v[i as int] => v[i as int].1));
            assert(v@.subrange(0, i + 1).subrange(0, i as int) =~= v@.subrange(0, i as int));
            assert(rets_model(v@.subrange(0, i + 1)) == m.push(x));
            lemma_links_rets_len(m, lk@, base@);
            assert(m.push(x).subrange(0, m.len() as int) =~= m);
            lemma_join_push(
                links_rets(m, lk@, base@),
                name_part + links_text(x.1, lk@, base@) + nullable_mark(x.1),
                ", "@,
            );
        }
        if i > 0 {
            out.append(", ");
        }
        match &v[i].0 {
            Some(n) => {
                out.append(n.as_str());
                out.append(": ");
            },
            None => {},
        }
        v[i].1.write_links(lk, base, out);
        write_mark(&v[i].1, out);
        i = i + 1;
        proof {
            assert(out@ =~= o0 + join(
                links_rets(rets_model(v@.subrange(0, i as int)), lk@, base@),
                ", "@,
            ));
        }
    }
    proof {
        assert(v@.subrange(0, i as int) =~= v@);
    }
}

#[verifier::rlimit(40)]
fn links_fields_exec(v: &Vec<(Type, Type)>, lk: &IdentLookup, base: &str, out: &mut String)
    ensures
        final(out)@ == old(out)@ + join(links_fields(fields_model(v@), lk@, base@), ", "@),
    decreases v, 0int,
{
    let ghost o0 = out@;
    let mut i: usize = 0;
    proof {
        assert(v@.subrange(0, 0) =~= Seq::<(Type, Type)>::empty());
        assert(out@ =~= o0 + join(links_fields(fields_model(v@.subrange(0, 0)), lk@, base@), ", "@));
    }
    while i < v.len()
        invariant
            i <= v@.len(),
            out@ == o0 + join(links_fields(fields_model(v@.subrange(0, i as int)), lk@, base@), ", "@),
        decreases v@.len() - i,
    {
        let ghost m = fields_model(v@.subrange(0, i as int));
        let ghost x = (v@[i as int].0@, v@[i as int].1@);
        proof {
            assert(decreases_to!(*v => v[i as int]));
            assert(decreases_to!(v[i as int] => v[i as int].0));
            assert(decreases_to!(v[i as int] => v[i as int].1));
            assert(v@.subrange(0, i + 1).subrange(0, i as int) =~= v@.subrange(0, i as int));
            assert(fields_model(v@.subrange(0, i + 1)) == m.push(x));
            lemma_links_fields_len(m, lk@, base@);
            assert(m.push(x).subrange(0, m.len() as int) =~= m);
            lemma_join_push(
                links_fields(m, lk@, base@),
                field_name_text(x.0) + nullable_mark(x.1) + ": "@ + links_text(x.1, lk@, base@),
                ", "@,
            );
        }
        if i > 0 {
            out.append(", ");
        }
        let key = v[i].0.format_as_table_field_name();
        out.append(key.as_str());
        write_mark(&v[i].1, out);
        out.append(": ");
        v[i].1.write_links(lk, base, out);
        i = i + 1;
        proof {
            assert(out@ =~= o0 + join(
                links_fields(fields_model(v@.subrange(0, i as int)), lk@, base@),
                ", "@,
            ));
        }
    }
    proof {
        assert(v@.subrange(0, i as int) =~= v@);
    }
}

} // verus!
