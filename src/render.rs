//! Settings of the site writer: where pages go and the URL they are served
//! under. Writing the pages is file work done by the program around the
//! library.
use std::path::PathBuf;
use vstd::prelude::*;
use vstd::string::*;
use crate::grammar::Source;
use crate::types::{IdentLookup, Metatype};

verus! {

/// Declares std's `PathBuf` so that the settings can hold the output
/// directory; it is only moved, never read.
#[verifier::external_type_specification]
#[verifier::external_body]
pub struct ExPathBuf(PathBuf);

pub struct VitePressRenderer {
    pub out_dir: PathBuf,
    pub base_url: String,
}

impl VitePressRenderer {
    /// A writer into `out_dir`; links are served from the root unless a base
    /// URL is given.
    pub fn new(out_dir: PathBuf, base_url: Option<String>) -> (r: Self)
        ensures
            r.out_dir == out_dir,
            r.base_url@ == match base_url {
                Some(b) => b@,
                None => "/"@,
            },
    {
        let base_url = match base_url {
            Some(b) => b,
            None => String::from_str("/"),
        };
        VitePressRenderer { out_dir, base_url }
    }
}

/// The end of the segment of a dotted name that starts at `i`.
pub open spec fn seg_end(s: Seq<char>, i: int) -> int
    decreases s.len() - i,
{
    if 0 <= i < s.len() && s[i] != '.' {
        seg_end(s, i + 1)
    } else {
        i
    }
}

/// The end of the longest run of leading segments, from the one at `i` on,
/// each of whose prefixes the lookup knows; `best` where the one at `i` is
/// not known.
pub open spec fn known_end(s: Seq<char>, lk: Map<Seq<char>, Metatype>, i: int, best: int) -> int
    decreases s.len() - i,
{
    let e = seg_end(s, i);
    if 0 <= i <= e <= s.len() && lk.contains_key(s.subrange(0, e)) {
        if e < s.len() {
            known_end(s, lk, e + 1, e)
        } else {
            e
        }
    } else {
        best
    }
}

/// Where a reference like `Class.method` points: the entity that its
/// longest known leading segments name, and the rest after them.
pub struct SeeTarget {
    pub metatype: Metatype,
    pub entity: String,
    pub rest: String,
}

/// The target of a dotted reference, where its leading segments name a
/// known entity.
pub open spec fn see_target(s: Seq<char>, lk: Map<Seq<char>, Metatype>) -> Option<
    (Metatype, Seq<char>, Seq<char>),
> {
    let k = known_end(s, lk, 0, 0);
    let entity = s.subrange(0, k);
    let rest = if k < s.len() {
        s.subrange(k + 1, s.len() as int)
    } else {
        Seq::empty()
    };
    if lk.contains_key(entity) {
        Some((lk[entity], entity, rest))
    } else {
        None
    }
}

fn p_seg_end(src: &Source, i: usize) -> (r: usize)
    requires
        src.wf(),
        i <= src.s().len(),
    ensures
        r == seg_end(src.s(), i as int),
        i <= r <= src.s().len(),
{
    let mut j = i;
    while j < src.chars.len() && src.chars[j] != '.'
        invariant
            src.wf(),
            i <= j <= src.s().len(),
            seg_end(src.s(), i as int) == seg_end(src.s(), j as int),
        decreases src.s().len() - j,
    {
        j = j + 1;
    }
    j
}

pub fn resolve_see(ident: &str, lookup: &IdentLookup) -> (r: Option<SeeTarget>)
    ensures
        match see_target(ident@, lookup@) {
            Some((m, entity, rest)) => r matches Some(t) && t.metatype == m && t.entity@ == entity
                && t.rest@ == rest,
            None => r is None,
        },
{
    let src = Source::new(ident);
    let ghost s = ident@;
    let n = src.chars.len();
    let mut i: usize = 0;
    let mut best: usize = 0;
    loop
        invariant
            src.wf(),
            src.s() == s,
            n == s.len(),
            i <= n,
            best <= n,
            known_end(s, lookup@, 0, 0) == known_end(s, lookup@, i as int, best as int),
        ensures
            best <= n,
            known_end(s, lookup@, 0, 0) == best as int,
        decreases n - i,
    {
        let e = p_seg_end(&src, i);
        let prefix = src.slice(0, e);
        if lookup.get(&prefix).is_some() {
            if e < n {
                best = e;
                i = e + 1;
            } else {
                best = e;
                break;
            }
        } else {
            break;
        }
    }
    let entity = src.slice(0, best);
    let rest = if best < n {
        src.slice(best + 1, n)
    } else {
        String::new()
    };
    match lookup.get(&entity) {
        Some(m) => Some(SeeTarget { metatype: m, entity, rest }),
        None => None,
    }
}

} // verus!
