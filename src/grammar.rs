//! The grammar of type expressions and its parser.
//!
//! The grammar is stated as spec functions over the characters of the input,
//! in the manner of a parsing expression grammar: alternatives are tried in
//! order and repetitions are greedy. Each rule takes a position and yields
//! the value parsed and the position after it. Whitespace (spaces and tabs)
//! may stand before every token.
use vstd::prelude::*;
use vstd::string::*;
use crate::types::{
    source_text, args_model, bare, fields_model, lemma_types_model, opt_str_model, rets_model, type_model,
    types_model, KindModel, Literal, LiteralModel, Type, TypeInner, TypeModel,
};

verus! {

broadcast use vstd::std_specs::vec::group_vec_axioms;

// ---------------------------------------------------------------------------
// Characters and tokens
// ---------------------------------------------------------------------------

pub open spec fn is_ws(c: char) -> bool {
    c == ' ' || c == '\t'
}

pub open spec fn is_alpha(c: char) -> bool {
    ('a' <= c && c <= 'z') || ('A' <= c && c <= 'Z')
}

pub open spec fn is_digit(c: char) -> bool {
    '0' <= c && c <= '9'
}

pub open spec fn is_ident_start(c: char) -> bool {
    is_alpha(c) || c == '_'
}

pub open spec fn is_ident_char(c: char) -> bool {
    is_ident_start(c) || is_digit(c)
}

pub open spec fn is_type_ident_char(c: char) -> bool {
    is_ident_char(c) || c == '.'
}

/// The characters that a span of the given class may hold.
pub enum CharClass {
    Space,
    Ident,
    TypeIdent,
    Digit,
    NotQuote,
}

pub open spec fn in_class(c: char, k: CharClass) -> bool {
    match k {
        CharClass::Space => is_ws(c),
        CharClass::Ident => is_ident_char(c),
        CharClass::TypeIdent => is_type_ident_char(c),
        CharClass::Digit => is_digit(c),
        CharClass::NotQuote => c != '"',
    }
}

/// The end of the longest run of characters of class `k` that starts at `i`.
pub open spec fn span(s: Seq<char>, i: int, k: CharClass) -> int
    decreases s.len() - i,
{
    if 0 <= i < s.len() && in_class(s[i], k) {
        span(s, i + 1, k)
    } else {
        i
    }
}

pub open spec fn skip_ws(s: Seq<char>, i: int) -> int {
    span(s, i, CharClass::Space)
}

/// The character `c`, after whitespace.
pub open spec fn tok(s: Seq<char>, i: int, c: char) -> Option<int> {
    let j = skip_ws(s, i);
    if 0 <= j < s.len() && s[j] == c {
        Some(j + 1)
    } else {
        None
    }
}

pub open spec fn word_at(s: Seq<char>, j: int, w: Seq<char>) -> bool {
    0 <= j && j + w.len() <= s.len() && s.subrange(j, j + w.len()) == w
}

/// The characters `w`, after whitespace.
pub open spec fn word(s: Seq<char>, i: int, w: Seq<char>) -> Option<int> {
    let j = skip_ws(s, i);
    if word_at(s, j, w) {
        Some(j + w.len())
    } else {
        None
    }
}

/// An identifier, after whitespace: its start and end.
pub open spec fn ident(s: Seq<char>, i: int) -> Option<(int, int)> {
    let j = skip_ws(s, i);
    if 0 <= j < s.len() && is_ident_start(s[j]) {
        Some((j, span(s, j + 1, CharClass::Ident)))
    } else {
        None
    }
}

/// A possibly dotted name of a type, after whitespace: its start and end.
pub open spec fn type_ident(s: Seq<char>, i: int) -> Option<(int, int)> {
    let j = skip_ws(s, i);
    if 0 <= j < s.len() && is_ident_start(s[j]) {
        Some((j, span(s, j + 1, CharClass::TypeIdent)))
    } else {
        None
    }
}

/// A double-quoted string, after whitespace: its start and end, quotes
/// included.
pub open spec fn str_lit(s: Seq<char>, i: int) -> Option<(int, int)> {
    let j = skip_ws(s, i);
    let k = span(s, j + 1, CharClass::NotQuote);
    if 0 <= j < s.len() && s[j] == '"' && k < s.len() {
        Some((j, k + 1))
    } else {
        None
    }
}

/// A run of decimal digits, after whitespace: its start and end.
pub open spec fn int_lit(s: Seq<char>, i: int) -> Option<(int, int)> {
    let j = skip_ws(s, i);
    if 0 <= j < s.len() && is_digit(s[j]) {
        Some((j, span(s, j + 1, CharClass::Digit)))
    } else {
        None
    }
}

pub open spec fn digit_value(c: char) -> int {
    c as int - '0' as int
}

/// The number that a sequence of decimal digits denotes.
pub open spec fn digits_value(d: Seq<char>) -> int
    decreases d.len(),
{
    if d.len() == 0 {
        0
    } else {
        digits_value(d.subrange(0, d.len() - 1)) * 10 + digit_value(d[d.len() - 1])
    }
}

/// The type that a name stands for: a primitive, a boolean literal, or a
/// reference to a user-defined type.
pub open spec fn named_type(w: Seq<char>) -> TypeModel {
    if w == "nil"@ {
        bare(KindModel::Nil)
    } else if w == "any"@ {
        bare(KindModel::Any)
    } else if w == "boolean"@ {
        bare(KindModel::Boolean)
    } else if w == "string"@ {
        bare(KindModel::String)
    } else if w == "number"@ {
        bare(KindModel::Number)
    } else if w == "integer"@ {
        bare(KindModel::Integer)
    } else if w == "table"@ {
        bare(KindModel::Table)
    } else if w == "thread"@ {
        bare(KindModel::Thread)
    } else if w == "userdata"@ {
        bare(KindModel::Userdata)
    } else if w == "lightuserdata"@ {
        bare(KindModel::LightUserdata)
    } else if w == "true"@ {
        bare(KindModel::Literal(LiteralModel::Boolean(true)))
    } else if w == "false"@ {
        bare(KindModel::Literal(LiteralModel::Boolean(false)))
    } else {
        bare(KindModel::UserDefined(w))
    }
}

/// `k` is past `i` and within the input.
pub open spec fn adv(s: Seq<char>, i: int, k: int) -> bool {
    i < k <= s.len()
}

pub open spec fn with_nullable(t: TypeModel, q: bool) -> TypeModel {
    if q {
        TypeModel { nullable: true, ..t }
    } else {
        t
    }
}

/// The type that a list of alternatives stands for: the one alternative
/// itself, or the union of two or more.
pub open spec fn union_of(ts: Seq<TypeModel>) -> TypeModel {
    if ts.len() == 1 {
        ts[0]
    } else {
        bare(KindModel::Union(ts))
    }
}

// ---------------------------------------------------------------------------
// Type expressions
//
//   ty         = alt ("|" alt)*            one alternative is kept as it is
//   alt        = single "?"?               a "?" makes its alternative nullable
//   single     = base generics? ("[" "]")*
//   generics   = "<" ty ("," ty)* ">"
//   base       = function | table | tuple | string | integer | name | "(" ty ")"
//   function   = "fun" "(" (arg ("," arg)*)? ")" (":" ret ("," ret)*)?
//   arg        = ident "?"? (":" ty)?      an argument without a type is any
//   ret        = (ident ":")? ty
//   table      = "{" (field ("," field)*)? "}"
//   field      = ("[" ty "]" | ident) "?"? ":" ty
//   tuple      = "[" ty ("," ty)* "]"
// ---------------------------------------------------------------------------

pub open spec fn ty(s: Seq<char>, i: int) -> Option<(TypeModel, int)>
    decreases s.len() - i, 5int,
{
    match alts(s, i, Seq::empty()) {
        Some((ts, k)) => if ts.len() >= 1 {
            Some((union_of(ts), k))
        } else {
            None
        },
        None => None,
    }
}

/// Alternatives separated by `|`, appended to `acc`; a `?` after an
/// alternative makes that alternative nullable.
pub open spec fn alts(s: Seq<char>, i: int, acc: Seq<TypeModel>) -> Option<(Seq<TypeModel>, int)>
    decreases s.len() - i, 4int,
{
    match single(s, i) {
        Some((t, k)) => if adv(s, i, k) {
            let (t2, k2) = match tok(s, k, '?') {
                Some(k1) => (with_nullable(t, true), k1),
                None => (t, k),
            };
            let acc2 = acc.push(t2);
            match tok(s, k2, '|') {
                Some(k3) => if adv(s, i, k3) {
                    match alts(s, k3, acc2) {
                        Some(r) => Some(r),
                        None => Some((acc2, k2)),
                    }
                } else {
                    None
                },
                None => Some((acc2, k2)),
            }
        } else {
            None
        },
        None => None,
    }
}

pub open spec fn single(s: Seq<char>, i: int) -> Option<(TypeModel, int)>
    decreases s.len() - i, 3int,
{
    match base(s, i) {
        Some((b, k)) => if adv(s, i, k) {
            match generics(s, k, b.generics) {
                Some((g, k2)) => if adv(s, k, k2) {
                    Some(arrays(s, k2, TypeModel { generics: g, ..b }))
                } else {
                    None
                },
                None => Some(arrays(s, k, b)),
            }
        } else {
            None
        },
        None => None,
    }
}

/// Each `[]` that follows wraps the type into an array of it.
pub open spec fn arrays(s: Seq<char>, i: int, t: TypeModel) -> (TypeModel, int)
    decreases s.len() - i,
{
    match tok(s, i, '[') {
        Some(k) => match tok(s, k, ']') {
            Some(k2) => if adv(s, i, k2) {
                arrays(s, k2, bare(KindModel::Array(Box::new(t))))
            } else {
                (t, i)
            },
            None => (t, i),
        },
        None => (t, i),
    }
}

/// Generic arguments, appended to those in `acc`.
pub open spec fn generics(s: Seq<char>, i: int, acc: Seq<TypeModel>) -> Option<
    (Seq<TypeModel>, int),
>
    decreases s.len() - i, 7int,
{
    match tok(s, i, '<') {
        Some(k) => if adv(s, i, k) {
            match type_list(s, k, acc) {
                Some((ts, k2)) => match tok(s, k2, '>') {
                    Some(k3) => Some((ts, k3)),
                    None => None,
                },
                None => None,
            }
        } else {
            None
        },
        None => None,
    }
}

/// Types separated by commas, appended to `acc`.
pub open spec fn type_list(s: Seq<char>, i: int, acc: Seq<TypeModel>) -> Option<
    (Seq<TypeModel>, int),
>
    decreases s.len() - i, 6int,
{
    match ty(s, i) {
        Some((t, k)) => if adv(s, i, k) {
            let acc2 = acc.push(t);
            match tok(s, k, ',') {
                Some(k1) => if adv(s, i, k1) {
                    match type_list(s, k1, acc2) {
                        Some(r) => Some(r),
                        None => Some((acc2, k)),
                    }
                } else {
                    None
                },
                None => Some((acc2, k)),
            }
        } else {
            None
        },
        None => None,
    }
}

pub open spec fn base(s: Seq<char>, i: int) -> Option<(TypeModel, int)>
    decreases s.len() - i, 2int,
{
    match function_def(s, i) {
        Some(r) => Some(r),
        None => match table_def(s, i) {
            Some(r) => Some(r),
            None => match tuple_def(s, i) {
                Some(r) => Some(r),
                None => match atom(s, i) {
                    Some(r) => Some(r),
                    None => match tok(s, i, '(') {
                        Some(k) => if adv(s, i, k) {
                            match ty(s, k) {
                                Some((t, k2)) => match tok(s, k2, ')') {
                                    Some(k3) => Some((t, k3)),
                                    None => None,
                                },
                                None => None,
                            }
                        } else {
                            None
                        },
                        None => None,
                    },
                },
            },
        },
    }
}

/// A string literal, an integer literal or a name.
pub open spec fn atom(s: Seq<char>, i: int) -> Option<(TypeModel, int)> {
    match str_lit(s, i) {
        Some((j, k)) => Some(
            (bare(KindModel::Literal(LiteralModel::String(s.subrange(j, k)))), k),
        ),
        None => match int_lit(s, i) {
            Some((j, k)) => if digits_value(s.subrange(j, k)) <= i64::MAX {
                Some(
                    (
                        bare(
                            KindModel::Literal(LiteralModel::Integer(digits_value(s.subrange(j, k)))),
                        ),
                        k,
                    ),
                )
            } else {
                None
            },
            None => match type_ident(s, i) {
                Some((j, k)) => Some((named_type(s.subrange(j, k)), k)),
                None => None,
            },
        },
    }
}

pub open spec fn function_def(s: Seq<char>, i: int) -> Option<(TypeModel, int)>
    decreases s.len() - i, 1int,
{
    match word(s, i, "fun"@) {
        Some(k0) => match tok(s, k0, '(') {
            Some(k) => if adv(s, i, k) {
                let args_end = match args(s, k, Seq::empty()) {
                    Some((a, k2)) => if adv(s, k, k2) {
                        match tok(s, k2, ')') {
                            Some(k3) => Some((a, k3)),
                            None => None,
                        }
                    } else {
                        None
                    },
                    None => match tok(s, k, ')') {
                        Some(k3) => Some((Seq::empty(), k3)),
                        None => None,
                    },
                };
                match args_end {
                    Some((a, k3)) => if adv(s, k, k3) {
                        match tok(s, k3, ':') {
                            Some(k4) => if adv(s, k3, k4) {
                                match rets(s, k4, Seq::empty()) {
                                    Some((r, k5)) => Some(
                                        (bare(KindModel::Function { args: a, ret: r }), k5),
                                    ),
                                    None => Some(
                                        (bare(KindModel::Function { args: a, ret: Seq::empty() }), k3),
                                    ),
                                }
                            } else {
                                None
                            },
                            None => Some(
                                (bare(KindModel::Function { args: a, ret: Seq::empty() }), k3),
                            ),
                        }
                    } else {
                        None
                    },
                    None => None,
                }
            } else {
                None
            },
            None => None,
        },
        None => None,
    }
}

/// Function arguments separated by commas, appended to `acc`.
pub open spec fn args(s: Seq<char>, i: int, acc: Seq<(Seq<char>, TypeModel)>) -> Option<
    (Seq<(Seq<char>, TypeModel)>, int),
>
    decreases s.len() - i, 2int,
{
    match arg(s, i) {
        Some((a, k)) => if adv(s, i, k) {
            let acc2 = acc.push(a);
            match tok(s, k, ',') {
                Some(k1) => if adv(s, i, k1) {
                    match args(s, k1, acc2) {
                        Some(r) => Some(r),
                        None => Some((acc2, k)),
                    }
                } else {
                    None
                },
                None => Some((acc2, k)),
            }
        } else {
            None
        },
        None => None,
    }
}

pub open spec fn arg(s: Seq<char>, i: int) -> Option<((Seq<char>, TypeModel), int)>
    decreases s.len() - i, 1int,
{
    match ident(s, i) {
        Some((j, k)) => if adv(s, i, k) {
            let (q, k2) = match tok(s, k, '?') {
                Some(k1) => (true, k1),
                None => (false, k),
            };
            let (t, k4) = match tok(s, k2, ':') {
                Some(k3) => if adv(s, i, k3) {
                    match ty(s, k3) {
                        Some((t, k4)) => (t, k4),
                        None => (bare(KindModel::Any), k2),
                    }
                } else {
                    (bare(KindModel::Any), k2)
                },
                None => (bare(KindModel::Any), k2),
            };
            Some(((s.subrange(j, k), with_nullable(t, q)), k4))
        } else {
            None
        },
        None => None,
    }
}

/// Function returns separated by commas, appended to `acc`.
pub open spec fn rets(s: Seq<char>, i: int, acc: Seq<(Option<Seq<char>>, TypeModel)>) -> Option<
    (Seq<(Option<Seq<char>>, TypeModel)>, int),
>
    decreases s.len() - i, 7int,
{
    match ret(s, i) {
        Some((r, k)) => if adv(s, i, k) {
            let acc2 = acc.push(r);
            match tok(s, k, ',') {
                Some(k1) => if adv(s, i, k1) {
                    match rets(s, k1, acc2) {
                        Some(r) => Some(r),
                        None => Some((acc2, k)),
                    }
                } else {
                    None
                },
                None => Some((acc2, k)),
            }
        } else {
            None
        },
        None => None,
    }
}

pub open spec fn ret(s: Seq<char>, i: int) -> Option<((Option<Seq<char>>, TypeModel), int)>
    decreases s.len() - i, 6int,
{
    let named = match ident(s, i) {
        Some((j, k)) => match tok(s, k, ':') {
            Some(k1) => Some((s.subrange(j, k), k1)),
            None => None,
        },
        None => None,
    };
    match named {
        Some((n, k1)) => if adv(s, i, k1) {
            match ty(s, k1) {
                Some((t, k2)) => Some(((Some(n), t), k2)),
                None => None,
            }
        } else {
            None
        },
        None => match ty(s, i) {
            Some((t, k2)) => Some(((None, t), k2)),
            None => None,
        },
    }
}

pub open spec fn table_def(s: Seq<char>, i: int) -> Option<(TypeModel, int)>
    decreases s.len() - i, 1int,
{
    match tok(s, i, '{') {
        Some(k) => if adv(s, i, k) {
            let end = match fields(s, k, Seq::empty()) {
                Some((f, k2)) => match tok(s, k2, '}') {
                    Some(k3) => Some((f, k3)),
                    None => None,
                },
                None => match tok(s, k, '}') {
                    Some(k3) => Some((Seq::empty(), k3)),
                    None => None,
                },
            };
            match end {
                Some((f, k3)) => Some((bare(KindModel::TableDef(f)), k3)),
                None => None,
            }
        } else {
            None
        },
        None => None,
    }
}

/// Table fields separated by commas, appended to `acc`.
pub open spec fn fields(s: Seq<char>, i: int, acc: Seq<(TypeModel, TypeModel)>) -> Option<
    (Seq<(TypeModel, TypeModel)>, int),
>
    decreases s.len() - i, 7int,
{
    match field(s, i) {
        Some((f, k)) => if adv(s, i, k) {
            let acc2 = acc.push(f);
            match tok(s, k, ',') {
                Some(k1) => if adv(s, i, k1) {
                    match fields(s, k1, acc2) {
                        Some(r) => Some(r),
                        None => Some((acc2, k)),
                    }
                } else {
                    None
                },
                None => Some((acc2, k)),
            }
        } else {
            None
        },
        None => None,
    }
}

/// The key of a table field: a bracketed type, or a name that stands for
/// the string literal of itself.
pub open spec fn field_key(s: Seq<char>, i: int) -> Option<(TypeModel, int)>
    decreases s.len() - i, 5int,
{
    match tok(s, i, '[') {
        Some(k) => if adv(s, i, k) {
            match ty(s, k) {
                Some((t, k2)) => match tok(s, k2, ']') {
                    Some(k3) => Some((t, k3)),
                    None => None,
                },
                None => None,
            }
        } else {
            None
        },
        None => match ident(s, i) {
            Some((j, k)) => Some(
                (bare(KindModel::Literal(LiteralModel::String(s.subrange(j, k)))), k),
            ),
            None => None,
        },
    }
}

pub open spec fn field(s: Seq<char>, i: int) -> Option<((TypeModel, TypeModel), int)>
    decreases s.len() - i, 6int,
{
    match field_key(s, i) {
        Some((key, k)) => if adv(s, i, k) {
            let (q, k2) = match tok(s, k, '?') {
                Some(k1) => (true, k1),
                None => (false, k),
            };
            match tok(s, k2, ':') {
                Some(k3) => if adv(s, i, k3) {
                    match ty(s, k3) {
                        Some((t, k4)) => Some(((with_nullable(key, q), t), k4)),
                        None => None,
                    }
                } else {
                    None
                },
                None => None,
            }
        } else {
            None
        },
        None => None,
    }
}

pub open spec fn tuple_def(s: Seq<char>, i: int) -> Option<(TypeModel, int)>
    decreases s.len() - i, 1int,
{
    match tok(s, i, '[') {
        Some(k) => if adv(s, i, k) {
            match type_list(s, k, Seq::empty()) {
                Some((ts, k2)) => match tok(s, k2, ']') {
                    Some(k3) => Some((bare(KindModel::Tuple(ts)), k3)),
                    None => None,
                },
                None => None,
            }
        } else {
            None
        },
        None => None,
    }
}

/// Alternatives parsed after those in `acc` extend them.
pub proof fn lemma_alts_grow(s: Seq<char>, i: int, acc: Seq<TypeModel>)
    requires
        alts(s, i, acc) is Some,
    ensures
        (alts(s, i, acc)->0).0.len() > acc.len(),
        (alts(s, i, acc)->0).0.subrange(0, acc.len() as int) == acc,
    decreases s.len() - i,
{
    let (t, k) = single(s, i)->0;
    let (t2, k2) = match tok(s, k, '?') {
        Some(k1) => (with_nullable(t, true), k1),
        None => (t, k),
    };
    let acc2 = acc.push(t2);
    assert(acc2.subrange(0, acc.len() as int) =~= acc);
    match tok(s, k2, '|') {
        Some(k3) => {
            if alts(s, k3, acc2) is Some {
                lemma_alts_grow(s, k3, acc2);
                let r = (alts(s, k3, acc2)->0).0;
                assert(r.subrange(0, acc.len() as int) =~= r.subrange(0, acc2.len() as int).subrange(
                    0,
                    acc.len() as int,
                ));
            }
        },
        None => {},
    }
}

/// A type expression with one alternative is that alternative itself, not
/// wrapped into a union; one with two or more is the union of all of them,
/// in the order written, each nullable where a `?` follows it.
pub proof fn lemma_union_normalization(s: Seq<char>, i: int)
    requires
        alts(s, i, Seq::empty()) is Some,
    ensures
        ({
            let (ts, k) = alts(s, i, Seq::empty())->0;
            &&& ts.len() >= 1
            &&& ts.len() == 1 ==> ty(s, i) == Some((ts[0], k))
            &&& ts.len() >= 2 ==> ty(s, i) == Some((bare(KindModel::Union(ts)), k))
        }),
{
    lemma_alts_grow(s, i, Seq::empty());
}

/// A span over characters that all belong to its class reaches the end.
pub proof fn lemma_span_all(s: Seq<char>, i: int, k: CharClass)
    requires
        0 <= i <= s.len(),
        forall|m: int| i <= m < s.len() ==> in_class(#[trigger] s[m], k),
    ensures
        span(s, i, k) == s.len(),
    decreases s.len() - i,
{
    if i < s.len() {
        lemma_span_all(s, i + 1, k);
    }
}

/// A name read back: the source text of the type that a name stands for is
/// the name itself, and parsing that text gives the type again. This is the
/// round trip for names; it is not shown here for other types.
pub proof fn lemma_name_round_trip(w: Seq<char>)
    requires
        w.len() > 0,
        is_ident_start(w[0]),
        forall|m: int| 0 <= m < w.len() ==> is_type_ident_char(#[trigger] w[m]),
    ensures
        source_text(named_type(w), true) == w,
        ty(w, 0) == Some((named_type(w), w.len() as int)),
{
    reveal_strlit("fun");
    let n = w.len() as int;
    let t = named_type(w);
    assert(skip_ws(w, 0) == 0);
    assert(skip_ws(w, n) == n);
    if n > 3 {
        assert(skip_ws(w, 3) == 3);
    } else if n == 3 {
        assert(skip_ws(w, 3) == 3);
    }
    assert(function_def(w, 0) is None);
    assert(table_def(w, 0) is None);
    assert(tuple_def(w, 0) is None);
    assert(str_lit(w, 0) is None);
    assert(int_lit(w, 0) is None);
    assert forall|m: int| 1 <= m < w.len() implies in_class(#[trigger] w[m], CharClass::TypeIdent) by {
        assert(is_type_ident_char(w[m]));
    }
    lemma_span_all(w, 1, CharClass::TypeIdent);
    assert(type_ident(w, 0) == Some((0int, n)));
    assert(w.subrange(0, n) =~= w);
    assert(atom(w, 0) == Some((t, n)));
    assert(base(w, 0) == Some((t, n)));
    assert(tok(w, n, '<') is None);
    assert(generics(w, n, t.generics) is None);
    assert(tok(w, n, '[') is None);
    assert(arrays(w, n, t) == (t, n));
    assert(single(w, 0) == Some((t, n)));
    assert(tok(w, n, '?') is None);
    assert(tok(w, n, '|') is None);
    assert(alts(w, 0, Seq::empty()) == Some((seq![t], n)));
    assert(union_of(seq![t]) == t);
}

// ---------------------------------------------------------------------------
// The parser
// ---------------------------------------------------------------------------

/// A text to parse, with its characters at hand.
pub struct Source<'a> {
    pub text: &'a str,
    pub chars: Vec<char>,
}

impl<'a> Source<'a> {
    pub open spec fn wf(&self) -> bool {
        self.chars@ == self.text@
    }

    pub open spec fn s(&self) -> Seq<char> {
        self.text@
    }

    pub fn new(text: &'a str) -> (r: Source<'a>)
        ensures
            r.wf(),
            r.text == text,
    {
        let n = text.unicode_len();
        let mut chars: Vec<char> = Vec::new();
        let mut i: usize = 0;
        while i < n
            invariant
                n == text@.len(),
                i <= n,
                chars@ == text@.subrange(0, i as int),
            decreases n - i,
        {
            chars.push(text.get_char(i));
            i = i + 1;
            proof {
                assert(chars@ =~= text@.subrange(0, i as int));
            }
        }
        proof {
            assert(chars@ =~= text@);
        }
        Source { text, chars }
    }

    /// The text from `j` to `k`.
    pub fn slice(&self, j: usize, k: usize) -> (r: String)
        requires
            self.wf(),
            j <= k <= self.s().len(),
        ensures
            r@ == self.s().subrange(j as int, k as int),
    {
        self.text.substring_char(j, k).to_string()
    }
}

pub open spec fn pos(o: Option<usize>) -> Option<int> {
    match o {
        Some(k) => Some(k as int),
        None => None,
    }
}

pub open spec fn span_pos(o: Option<(usize, usize)>) -> Option<(int, int)> {
    match o {
        Some((j, k)) => Some((j as int, k as int)),
        None => None,
    }
}

fn in_class_exec(c: char, k: &CharClass) -> (r: bool)
    ensures
        r == in_class(c, *k),
{
    match k {
        CharClass::Space => c == ' ' || c == '\t',
        CharClass::Ident => ('a' <= c && c <= 'z') || ('A' <= c && c <= 'Z') || c == '_' || ('0' <= c
            && c <= '9'),
        CharClass::TypeIdent => ('a' <= c && c <= 'z') || ('A' <= c && c <= 'Z') || c == '_' || (
        '0' <= c && c <= '9') || c == '.',
        CharClass::Digit => '0' <= c && c <= '9',
        CharClass::NotQuote => c != '"',
    }
}

pub fn p_span(src: &Source, i: usize, k: CharClass) -> (r: usize)
    requires
        src.wf(),
        i <= src.s().len(),
    ensures
        r == span(src.s(), i as int, k),
        i <= r <= src.s().len(),
{
    let mut j = i;
    while j < src.chars.len() && in_class_exec(src.chars[j], &k)
        invariant
            src.wf(),
            i <= j <= src.s().len(),
            span(src.s(), i as int, k) == span(src.s(), j as int, k),
        decreases src.s().len() - j,
    {
        j = j + 1;
    }
    j
}

pub fn p_skip_ws(src: &Source, i: usize) -> (r: usize)
    requires
        src.wf(),
        i <= src.s().len(),
    ensures
        r == skip_ws(src.s(), i as int),
        i <= r <= src.s().len(),
{
    p_span(src, i, CharClass::Space)
}

pub fn p_tok(src: &Source, i: usize, c: char) -> (r: Option<usize>)
    requires
        src.wf(),
        i <= src.s().len(),
    ensures
        pos(r) == tok(src.s(), i as int, c),
        r matches Some(k) ==> adv(src.s(), i as int, k as int),
{
    let j = p_skip_ws(src, i);
    if j < src.chars.len() && src.chars[j] == c {
        Some(j + 1)
    } else {
        None
    }
}

/// Whether the text from `j` on starts with `w`.
pub fn p_word_at(src: &Source, j: usize, w: &str) -> (r: bool)
    requires
        src.wf(),
        j <= src.s().len(),
    ensures
        r == word_at(src.s(), j as int, w@),
{
    let n = w.unicode_len();
    let len = src.chars.len();
    if n > len - j {
        return false;
    }
    let mut m: usize = 0;
    while m < n
        invariant
            src.wf(),
            len == src.s().len(),
            n == w@.len(),
            j + n <= src.s().len(),
            m <= n,
            src.s().subrange(j as int, j + m) == w@.subrange(0, m as int),
        decreases n - m,
    {
        if src.chars[j + m] != w.get_char(m) {
            proof {
                assert(src.s().subrange(j as int, j + n)[m as int] != w@[m as int]);
            }
            return false;
        }
        m = m + 1;
        proof {
            assert(src.s().subrange(j as int, j + m) =~= w@.subrange(0, m as int));
        }
    }
    proof {
        assert(w@.subrange(0, n as int) =~= w@);
    }
    true
}

/// Whether the text from `j` to `k` is `w`.
pub fn p_text_is(src: &Source, j: usize, k: usize, w: &str) -> (r: bool)
    requires
        src.wf(),
        j <= k <= src.s().len(),
    ensures
        r == (src.s().subrange(j as int, k as int) == w@),
{
    let n = w.unicode_len();
    if n != k - j {
        proof {
            assert(src.s().subrange(j as int, k as int).len() != w@.len());
        }
        return false;
    }
    p_word_at(src, j, w)
}

pub fn p_word(src: &Source, i: usize, w: &str) -> (r: Option<usize>)
    requires
        src.wf(),
        i <= src.s().len(),
        w@.len() > 0,
    ensures
        pos(r) == word(src.s(), i as int, w@),
        r matches Some(k) ==> adv(src.s(), i as int, k as int),
{
    let j = p_skip_ws(src, i);
    let len = src.chars.len();
    if p_word_at(src, j, w) {
        Some(j + w.unicode_len())
    } else {
        None
    }
}

pub fn p_ident(src: &Source, i: usize) -> (r: Option<(usize, usize)>)
    requires
        src.wf(),
        i <= src.s().len(),
    ensures
        span_pos(r) == ident(src.s(), i as int),
        r matches Some((j, k)) ==> i <= j < k <= src.s().len(),
{
    let j = p_skip_ws(src, i);
    if j < src.chars.len() {
        let c = src.chars[j];
        if ('a' <= c && c <= 'z') || ('A' <= c && c <= 'Z') || c == '_' {
            return Some((j, p_span(src, j + 1, CharClass::Ident)));
        }
    }
    None
}

pub fn p_type_ident(src: &Source, i: usize) -> (r: Option<(usize, usize)>)
    requires
        src.wf(),
        i <= src.s().len(),
    ensures
        span_pos(r) == type_ident(src.s(), i as int),
        r matches Some((j, k)) ==> i <= j < k <= src.s().len(),
{
    let j = p_skip_ws(src, i);
    if j < src.chars.len() {
        let c = src.chars[j];
        if ('a' <= c && c <= 'z') || ('A' <= c && c <= 'Z') || c == '_' {
            return Some((j, p_span(src, j + 1, CharClass::TypeIdent)));
        }
    }
    None
}

pub fn p_str_lit(src: &Source, i: usize) -> (r: Option<(usize, usize)>)
    requires
        src.wf(),
        i <= src.s().len(),
    ensures
        span_pos(r) == str_lit(src.s(), i as int),
        r matches Some((j, k)) ==> i <= j < k <= src.s().len(),
{
    let j = p_skip_ws(src, i);
    if j < src.chars.len() && src.chars[j] == '"' {
        let k = p_span(src, j + 1, CharClass::NotQuote);
        if k < src.chars.len() {
            return Some((j, k + 1));
        }
    }
    None
}

pub fn p_int_lit(src: &Source, i: usize) -> (r: Option<(usize, usize)>)
    requires
        src.wf(),
        i <= src.s().len(),
    ensures
        span_pos(r) == int_lit(src.s(), i as int),
        r matches Some((j, k)) ==> i <= j < k <= src.s().len(),
{
    let j = p_skip_ws(src, i);
    if j < src.chars.len() && '0' <= src.chars[j] && src.chars[j] <= '9' {
        return Some((j, p_span(src, j + 1, CharClass::Digit)));
    }
    None
}

proof fn lemma_digits_value_nonneg(d: Seq<char>)
    requires
        forall|m: int| 0 <= m < d.len() ==> is_digit(#[trigger] d[m]),
    ensures
        digits_value(d) >= 0,
    decreases d.len(),
{
    if d.len() > 0 {
        let p = d.subrange(0, d.len() - 1);
        assert(forall|m: int| 0 <= m < p.len() ==> #[trigger] p[m] == d[m]);
        lemma_digits_value_nonneg(p);
    }
}

/// The value of the digits from `j` to `k`, where it fits in an `i64`.
pub fn p_digits_value(src: &Source, j: usize, k: usize) -> (r: Option<i64>)
    requires
        src.wf(),
        j <= k <= src.s().len(),
        forall|m: int| j <= m < k ==> is_digit(#[trigger] src.s()[m]),
    ensures
        match r {
            Some(v) => v as int == digits_value(src.s().subrange(j as int, k as int)),
            None => digits_value(src.s().subrange(j as int, k as int)) > i64::MAX,
        },
{
    let mut v: i64 = 0;
    let mut m = j;
    while m < k
        invariant
            src.wf(),
            j <= m <= k <= src.s().len(),
            forall|x: int| j <= x < k ==> is_digit(#[trigger] src.s()[x]),
            0 <= v,
            v as int == digits_value(src.s().subrange(j as int, m as int)),
        decreases k - m,
    {
        let c = src.chars[m];
        let d = (c as u32 - '0' as u32) as i64;
        let ghost pre = src.s().subrange(j as int, m as int);
        let ghost next = src.s().subrange(j as int, m + 1);
        proof {
            assert(next.subrange(0, next.len() - 1) =~= pre);
            assert(next[next.len() - 1] == c);
            assert(d as int == digit_value(c));
        }
        if v > (i64::MAX - d) / 10 {
            proof {
                assert(digits_value(next) > i64::MAX) by (nonlinear_arith)
                    requires
                        digits_value(next) == v * 10 + d,
                        v > (i64::MAX - d) / 10,
                        0 <= d <= 9,
                ;
                lemma_digits_grow(src.s().subrange(j as int, k as int), (m + 1 - j) as int);
                assert(src.s().subrange(j as int, k as int).subrange(0, (m + 1 - j) as int) =~= next);
            }
            return None;
        }
        v = v * 10 + d;
        m = m + 1;
    }
    Some(v)
}

/// A number's digits never denote less than those of any prefix.
proof fn lemma_digits_grow(d: Seq<char>, n: int)
    requires
        0 <= n <= d.len(),
        forall|m: int| 0 <= m < d.len() ==> is_digit(#[trigger] d[m]),
    ensures
        digits_value(d) >= digits_value(d.subrange(0, n)),
    decreases d.len(),
{
    if n < d.len() {
        let p = d.subrange(0, d.len() - 1);
        assert(forall|m: int| 0 <= m < p.len() ==> #[trigger] p[m] == d[m]);
        lemma_digits_grow(p, n);
        lemma_digits_value_nonneg(p);
        assert(p.subrange(0, n) =~= d.subrange(0, n));
    } else {
        assert(d.subrange(0, n) =~= d);
    }
}

pub proof fn lemma_types_model_push(v: Seq<Type>, x: Type)
    ensures
        types_model(v.push(x)) == types_model(v).push(type_model(&x)),
{
    assert(v.push(x).subrange(0, v.len() as int) =~= v);
}

pub proof fn lemma_args_model_push(v: Seq<(String, Type)>, x: (String, Type))
    ensures
        args_model(v.push(x)) == args_model(v).push((x.0@, type_model(&x.1))),
{
    assert(v.push(x).subrange(0, v.len() as int) =~= v);
}

pub proof fn lemma_rets_model_push(v: Seq<(Option<String>, Type)>, x: (Option<String>, Type))
    ensures
        rets_model(v.push(x)) == rets_model(v).push((opt_str_model(x.0), type_model(&x.1))),
{
    assert(v.push(x).subrange(0, v.len() as int) =~= v);
}

pub proof fn lemma_fields_model_push(v: Seq<(Type, Type)>, x: (Type, Type))
    ensures
        fields_model(v.push(x)) == fields_model(v).push((type_model(&x.0), type_model(&x.1))),
{
    assert(v.push(x).subrange(0, v.len() as int) =~= v);
}

/// The type a name stands for.
pub fn p_named_type(src: &Source, j: usize, k: usize) -> (r: Type)
    requires
        src.wf(),
        j <= k <= src.s().len(),
    ensures
        r@ == named_type(src.s().subrange(j as int, k as int)),
{
    if p_text_is(src, j, k, "nil") {
        Type::new(TypeInner::Nil)
    } else if p_text_is(src, j, k, "any") {
        Type::new(TypeInner::Any)
    } else if p_text_is(src, j, k, "boolean") {
        Type::new(TypeInner::Boolean)
    } else if p_text_is(src, j, k, "string") {
        Type::new(TypeInner::String)
    } else if p_text_is(src, j, k, "number") {
        Type::new(TypeInner::Number)
    } else if p_text_is(src, j, k, "integer") {
        Type::new(TypeInner::Integer)
    } else if p_text_is(src, j, k, "table") {
        Type::new(TypeInner::Table)
    } else if p_text_is(src, j, k, "thread") {
        Type::new(TypeInner::Thread)
    } else if p_text_is(src, j, k, "userdata") {
        Type::new(TypeInner::Userdata)
    } else if p_text_is(src, j, k, "lightuserdata") {
        Type::new(TypeInner::LightUserdata)
    } else if p_text_is(src, j, k, "true") {
        Type::boolean_literal(true)
    } else if p_text_is(src, j, k, "false") {
        Type::boolean_literal(false)
    } else {
        Type::new(TypeInner::UserDefined(src.slice(j, k)))
    }
}

pub fn p_ty(src: &Source, i: usize) -> (r: Option<(Type, usize)>)
    requires
        src.wf(),
        i <= src.s().len(),
    ensures
        match r {
            Some((t, k)) => ty(src.s(), i as int) == Some((t@, k as int)) && adv(
                src.s(),
                i as int,
                k as int,
            ),
            None => ty(src.s(), i as int) is None,
        },
    decreases src.s().len() - i, 5int,
{
    let mut acc: Vec<Type> = Vec::new();
    proof {
        assert(types_model(acc@) =~= Seq::<TypeModel>::empty());
    }
    match p_alts(src, i, &mut acc) {
        None => None,
        Some(k) => {
            proof {
                lemma_types_model(acc@);
            }
            if acc.len() == 0 {
                return None;
            }
            let t = if acc.len() == 1 {
                acc.pop().unwrap()
            } else {
                Type::union(acc)
            };
            Some((t, k))
        },
    }
}

pub fn p_alts(src: &Source, i: usize, acc: &mut Vec<Type>) -> (r: Option<usize>)
    requires
        src.wf(),
        i <= src.s().len(),
    ensures
        match r {
            Some(k) => alts(src.s(), i as int, types_model(old(acc)@)) == Some(
                (types_model(final(acc)@), k as int),
            ) && adv(src.s(), i as int, k as int),
            None => alts(src.s(), i as int, types_model(old(acc)@)) is None && final(acc)@ == old(
                acc,
            )@,
        },
    decreases src.s().len() - i, 4int,
{
    match p_single(src, i) {
        None => None,
        Some((t, k)) => {
            let mut t = t;
            let k2 = match p_tok(src, k, '?') {
                Some(k1) => {
                    t.make_nullable();
                    k1
                },
                None => k,
            };
            proof {
                lemma_types_model_push(acc@, t);
            }
            acc.push(t);
            match p_tok(src, k2, '|') {
                Some(k3) => match p_alts(src, k3, acc) {
                    Some(r) => Some(r),
                    None => Some(k2),
                },
                None => Some(k2),
            }
        },
    }
}

pub fn p_single(src: &Source, i: usize) -> (r: Option<(Type, usize)>)
    requires
        src.wf(),
        i <= src.s().len(),
    ensures
        match r {
            Some((t, k)) => single(src.s(), i as int) == Some((t@, k as int)) && adv(
                src.s(),
                i as int,
                k as int,
            ),
            None => single(src.s(), i as int) is None,
        },
    decreases src.s().len() - i, 3int,
{
    match p_base(src, i) {
        None => None,
        Some((b, k)) => {
            let mut b = b;
            let ghost bm = b@;
            match p_generics(src, k, &mut b.generics) {
                Some(k2) => {
                    assert(b@ == (TypeModel { generics: b@.generics, ..bm }));
                    Some(p_arrays(src, k2, b))
                },
                None => {
                    assert(b@ == bm);
                    Some(p_arrays(src, k, b))
                },
            }
        },
    }
}

pub fn p_arrays(src: &Source, i: usize, t: Type) -> (r: (Type, usize))
    requires
        src.wf(),
        i <= src.s().len(),
    ensures
        arrays(src.s(), i as int, t@) == (r.0@, r.1 as int),
        i <= r.1 <= src.s().len(),
    decreases src.s().len() - i,
{
    match p_tok(src, i, '[') {
        Some(k) => match p_tok(src, k, ']') {
            Some(k2) => {
                let mut t = t;
                t.make_array();
                p_arrays(src, k2, t)
            },
            None => (t, i),
        },
        None => (t, i),
    }
}

pub fn p_generics(src: &Source, i: usize, acc: &mut Vec<Type>) -> (r: Option<usize>)
    requires
        src.wf(),
        i <= src.s().len(),
    ensures
        match r {
            Some(k) => generics(src.s(), i as int, types_model(old(acc)@)) == Some(
                (types_model(final(acc)@), k as int),
            ) && adv(src.s(), i as int, k as int),
            None => generics(src.s(), i as int, types_model(old(acc)@)) is None && final(acc)@ == old(
                acc,
            )@,
        },
    decreases src.s().len() - i, 7int,
{
    match p_tok(src, i, '<') {
        None => None,
        Some(k) => {
            let ghost a0 = acc@;
            let n0 = acc.len();
            match p_type_list(src, k, acc) {
                None => None,
                Some(k2) => match p_tok(src, k2, '>') {
                    Some(k3) => Some(k3),
                    None => {
                        acc.truncate(n0);
                        proof {
                            assert(acc@ =~= a0);
                        }
                        None
                    },
                },
            }
        },
    }
}

pub fn p_type_list(src: &Source, i: usize, acc: &mut Vec<Type>) -> (r: Option<usize>)
    requires
        src.wf(),
        i <= src.s().len(),
    ensures
        match r {
            Some(k) => type_list(src.s(), i as int, types_model(old(acc)@)) == Some(
                (types_model(final(acc)@), k as int),
            ) && adv(src.s(), i as int, k as int) && final(acc)@.len() >= old(acc)@.len()
                && final(acc)@.subrange(0, old(acc)@.len() as int) == old(acc)@,
            None => type_list(src.s(), i as int, types_model(old(acc)@)) is None && final(acc)@
                == old(acc)@,
        },
    decreases src.s().len() - i, 6int,
{
    match p_ty(src, i) {
        None => None,
        Some((t, k)) => {
            let ghost a0 = acc@;
            proof {
                lemma_types_model_push(acc@, t);
            }
            acc.push(t);
            proof {
                assert(acc@.subrange(0, a0.len() as int) =~= a0);
            }
            match p_tok(src, k, ',') {
                Some(k1) => {
                    let ghost a1 = acc@;
                    match p_type_list(src, k1, acc) {
                        Some(k2) => {
                            proof {
                                assert(acc@.subrange(0, a0.len() as int) =~= a1.subrange(
                                    0,
                                    a0.len() as int,
                                ));
                            }
                            Some(k2)
                        },
                        None => Some(k),
                    }
                },
                None => Some(k),
            }
        },
    }
}

pub fn p_base(src: &Source, i: usize) -> (r: Option<(Type, usize)>)
    requires
        src.wf(),
        i <= src.s().len(),
    ensures
        match r {
            Some((t, k)) => base(src.s(), i as int) == Some((t@, k as int)) && adv(
                src.s(),
                i as int,
                k as int,
            ),
            None => base(src.s(), i as int) is None,
        },
    decreases src.s().len() - i, 2int,
{
    if let Some(r) = p_function_def(src, i) {
        return Some(r);
    }
    if let Some(r) = p_table_def(src, i) {
        return Some(r);
    }
    if let Some(r) = p_tuple_def(src, i) {
        return Some(r);
    }
    if let Some(r) = p_atom(src, i) {
        return Some(r);
    }
    match p_tok(src, i, '(') {
        None => None,
        Some(k) => match p_ty(src, k) {
            None => None,
            Some((t, k2)) => match p_tok(src, k2, ')') {
                Some(k3) => Some((t, k3)),
                None => None,
            },
        },
    }
}

pub fn p_atom(src: &Source, i: usize) -> (r: Option<(Type, usize)>)
    requires
        src.wf(),
        i <= src.s().len(),
    ensures
        match r {
            Some((t, k)) => atom(src.s(), i as int) == Some((t@, k as int)) && adv(
                src.s(),
                i as int,
                k as int,
            ),
            None => atom(src.s(), i as int) is None,
        },
{
    if let Some((j, k)) = p_str_lit(src, i) {
        let text = src.slice(j, k);
        return Some((Type::new(TypeInner::Literal(Literal::String(text))), k));
    }
    if let Some((j, k)) = p_int_lit(src, i) {
        proof {
            let s = src.s();
            assert(k == span(s, j + 1, CharClass::Digit));
            lemma_span_class(s, j + 1, CharClass::Digit);
        }
        return match p_digits_value(src, j, k) {
            Some(v) => Some((Type::integer_literal(v), k)),
            None => None,
        };
    }
    match p_type_ident(src, i) {
        Some((j, k)) => Some((p_named_type(src, j, k), k)),
        None => None,
    }
}

/// Every character of a span belongs to its class.
pub proof fn lemma_span_class(s: Seq<char>, i: int, k: CharClass)
    requires
        0 <= i <= s.len(),
    ensures
        i <= span(s, i, k) <= s.len(),
        forall|m: int| i <= m < span(s, i, k) ==> in_class(#[trigger] s[m], k),
    decreases s.len() - i,
{
    if i < s.len() && in_class(s[i], k) {
        lemma_span_class(s, i + 1, k);
    }
}

pub fn p_function_def(src: &Source, i: usize) -> (r: Option<(Type, usize)>)
    requires
        src.wf(),
        i <= src.s().len(),
    ensures
        match r {
            Some((t, k)) => function_def(src.s(), i as int) == Some((t@, k as int)) && adv(
                src.s(),
                i as int,
                k as int,
            ),
            None => function_def(src.s(), i as int) is None,
        },
    decreases src.s().len() - i, 1int,
{
    proof {
        reveal_strlit("fun");
    }
    let k0 = match p_word(src, i, "fun") {
        Some(k0) => k0,
        None => return None,
    };
    let k = match p_tok(src, k0, '(') {
        Some(k) => k,
        None => return None,
    };
    let mut a: Vec<(String, Type)> = Vec::new();
    proof {
        assert(args_model(a@) =~= Seq::<(Seq<char>, TypeModel)>::empty());
    }
    let k3 = match p_args(src, k, &mut a) {
        Some(k2) => match p_tok(src, k2, ')') {
            Some(k3) => k3,
            None => return None,
        },
        None => match p_tok(src, k, ')') {
            Some(k3) => k3,
            None => return None,
        },
    };
    let mut r: Vec<(Option<String>, Type)> = Vec::new();
    proof {
        assert(rets_model(r@) =~= Seq::<(Option<Seq<char>>, TypeModel)>::empty());
    }
    match p_tok(src, k3, ':') {
        Some(k4) => match p_rets(src, k4, &mut r) {
            Some(k5) => Some((Type::function(a, r), k5)),
            None => Some((Type::function(a, r), k3)),
        },
        None => Some((Type::function(a, r), k3)),
    }
}

pub fn p_args(src: &Source, i: usize, acc: &mut Vec<(String, Type)>) -> (r: Option<usize>)
    requires
        src.wf(),
        i <= src.s().len(),
    ensures
        match r {
            Some(k) => args(src.s(), i as int, args_model(old(acc)@)) == Some(
                (args_model(final(acc)@), k as int),
            ) && adv(src.s(), i as int, k as int),
            None => args(src.s(), i as int, args_model(old(acc)@)) is None && final(acc)@ == old(
                acc,
            )@,
        },
    decreases src.s().len() - i, 2int,
{
    match p_arg(src, i) {
        None => None,
        Some((a, k)) => {
            proof {
                lemma_args_model_push(acc@, a);
            }
            acc.push(a);
            match p_tok(src, k, ',') {
                Some(k1) => match p_args(src, k1, acc) {
                    Some(k2) => Some(k2),
                    None => Some(k),
                },
                None => Some(k),
            }
        },
    }
}

pub fn p_arg(src: &Source, i: usize) -> (r: Option<((String, Type), usize)>)
    requires
        src.wf(),
        i <= src.s().len(),
    ensures
        match r {
            Some((a, k)) => arg(src.s(), i as int) == Some(((a.0@, a.1@), k as int)) && adv(
                src.s(),
                i as int,
                k as int,
            ),
            None => arg(src.s(), i as int) is None,
        },
    decreases src.s().len() - i, 1int,
{
    let (j, k) = match p_ident(src, i) {
        Some(r) => r,
        None => return None,
    };
    let (q, k2) = match p_tok(src, k, '?') {
        Some(k1) => (true, k1),
        None => (false, k),
    };
    let (mut t, k4) = match p_tok(src, k2, ':') {
        Some(k3) => match p_ty(src, k3) {
            Some((t, k4)) => (t, k4),
            None => (Type::new(TypeInner::Any), k2),
        },
        None => (Type::new(TypeInner::Any), k2),
    };
    if q {
        t.make_nullable();
    }
    Some(((src.slice(j, k), t), k4))
}

pub fn p_rets(src: &Source, i: usize, acc: &mut Vec<(Option<String>, Type)>) -> (r: Option<usize>)
    requires
        src.wf(),
        i <= src.s().len(),
    ensures
        match r {
            Some(k) => rets(src.s(), i as int, rets_model(old(acc)@)) == Some(
                (rets_model(final(acc)@), k as int),
            ) && adv(src.s(), i as int, k as int),
            None => rets(src.s(), i as int, rets_model(old(acc)@)) is None && final(acc)@ == old(
                acc,
            )@,
        },
    decreases src.s().len() - i, 7int,
{
    match p_ret(src, i) {
        None => None,
        Some((a, k)) => {
            proof {
                lemma_rets_model_push(acc@, a);
            }
            acc.push(a);
            match p_tok(src, k, ',') {
                Some(k1) => match p_rets(src, k1, acc) {
                    Some(k2) => Some(k2),
                    None => Some(k),
                },
                None => Some(k),
            }
        },
    }
}

pub fn p_ret(src: &Source, i: usize) -> (r: Option<((Option<String>, Type), usize)>)
    requires
        src.wf(),
        i <= src.s().len(),
    ensures
        match r {
            Some((a, k)) => ret(src.s(), i as int) == Some(
                ((opt_str_model(a.0), a.1@), k as int),
            ) && adv(src.s(), i as int, k as int),
            None => ret(src.s(), i as int) is None,
        },
    decreases src.s().len() - i, 6int,
{
    let named = match p_ident(src, i) {
        Some((j, k)) => match p_tok(src, k, ':') {
            Some(k1) => Some((j, k, k1)),
            None => None,
        },
        None => None,
    };
    match named {
        Some((j, k, k1)) => match p_ty(src, k1) {
            Some((t, k2)) => Some(((Some(src.slice(j, k)), t), k2)),
            None => None,
        },
        None => match p_ty(src, i) {
            Some((t, k2)) => Some(((None, t), k2)),
            None => None,
        },
    }
}

pub fn p_table_def(src: &Source, i: usize) -> (r: Option<(Type, usize)>)
    requires
        src.wf(),
        i <= src.s().len(),
    ensures
        match r {
            Some((t, k)) => table_def(src.s(), i as int) == Some((t@, k as int)) && adv(
                src.s(),
                i as int,
                k as int,
            ),
            None => table_def(src.s(), i as int) is None,
        },
    decreases src.s().len() - i, 1int,
{
    let k = match p_tok(src, i, '{') {
        Some(k) => k,
        None => return None,
    };
    let mut f: Vec<(Type, Type)> = Vec::new();
    proof {
        assert(fields_model(f@) =~= Seq::<(TypeModel, TypeModel)>::empty());
    }
    let k3 = match p_fields(src, k, &mut f) {
        Some(k2) => match p_tok(src, k2, '}') {
            Some(k3) => k3,
            None => return None,
        },
        None => match p_tok(src, k, '}') {
            Some(k3) => k3,
            None => return None,
        },
    };
    Some((Type::table(f), k3))
}

pub fn p_fields(src: &Source, i: usize, acc: &mut Vec<(Type, Type)>) -> (r: Option<usize>)
    requires
        src.wf(),
        i <= src.s().len(),
    ensures
        match r {
            Some(k) => fields(src.s(), i as int, fields_model(old(acc)@)) == Some(
                (fields_model(final(acc)@), k as int),
            ) && adv(src.s(), i as int, k as int),
            None => fields(src.s(), i as int, fields_model(old(acc)@)) is None && final(acc)@
                == old(acc)@,
        },
    decreases src.s().len() - i, 7int,
{
    match p_field(src, i) {
        None => None,
        Some((a, k)) => {
            proof {
                lemma_fields_model_push(acc@, a);
            }
            acc.push(a);
            match p_tok(src, k, ',') {
                Some(k1) => match p_fields(src, k1, acc) {
                    Some(k2) => Some(k2),
                    None => Some(k),
                },
                None => Some(k),
            }
        },
    }
}

pub fn p_field_key(src: &Source, i: usize) -> (r: Option<(Type, usize)>)
    requires
        src.wf(),
        i <= src.s().len(),
    ensures
        match r {
            Some((t, k)) => field_key(src.s(), i as int) == Some((t@, k as int)) && adv(
                src.s(),
                i as int,
                k as int,
            ),
            None => field_key(src.s(), i as int) is None,
        },
    decreases src.s().len() - i, 5int,
{
    match p_tok(src, i, '[') {
        Some(k) => match p_ty(src, k) {
            Some((t, k2)) => match p_tok(src, k2, ']') {
                Some(k3) => Some((t, k3)),
                None => None,
            },
            None => None,
        },
        None => match p_ident(src, i) {
            Some((j, k)) => Some((Type::new(TypeInner::Literal(Literal::String(src.slice(j, k)))), k)),
            None => None,
        },
    }
}

pub fn p_field(src: &Source, i: usize) -> (r: Option<((Type, Type), usize)>)
    requires
        src.wf(),
        i <= src.s().len(),
    ensures
        match r {
            Some((f, k)) => field(src.s(), i as int) == Some(((f.0@, f.1@), k as int)) && adv(
                src.s(),
                i as int,
                k as int,
            ),
            None => field(src.s(), i as int) is None,
        },
    decreases src.s().len() - i, 6int,
{
    let (mut key, k) = match p_field_key(src, i) {
        Some(r) => r,
        None => return None,
    };
    let (q, k2) = match p_tok(src, k, '?') {
        Some(k1) => (true, k1),
        None => (false, k),
    };
    let k3 = match p_tok(src, k2, ':') {
        Some(k3) => k3,
        None => return None,
    };
    match p_ty(src, k3) {
        Some((t, k4)) => {
            if q {
                key.make_nullable();
            }
            Some(((key, t), k4))
        },
        None => None,
    }
}

pub fn p_tuple_def(src: &Source, i: usize) -> (r: Option<(Type, usize)>)
    requires
        src.wf(),
        i <= src.s().len(),
    ensures
        match r {
            Some((t, k)) => tuple_def(src.s(), i as int) == Some((t@, k as int)) && adv(
                src.s(),
                i as int,
                k as int,
            ),
            None => tuple_def(src.s(), i as int) is None,
        },
    decreases src.s().len() - i, 1int,
{
    let k = match p_tok(src, i, '[') {
        Some(k) => k,
        None => return None,
    };
    let mut ts: Vec<Type> = Vec::new();
    proof {
        assert(types_model(ts@) =~= Seq::<TypeModel>::empty());
    }
    match p_type_list(src, k, &mut ts) {
        Some(k2) => match p_tok(src, k2, ']') {
            Some(k3) => Some((Type::tuple(ts), k3)),
            None => None,
        },
        None => None,
    }
}

} // verus!
