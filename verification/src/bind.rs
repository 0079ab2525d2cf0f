//! Argument binding: resolve declared inputs against supplied arguments,
//! then substitute `{{inputs.parameters.NAME}}` placeholders into every
//! text field of a template, byte for byte.
//!
//! Substitution is textual and one level deep: the bytes a placeholder is
//! replaced with are never re-scanned, since scanning always resumes after
//! the inserted value.

use vstd::prelude::*;

use crate::errors::DefinitionError;
use crate::template::{Parameter, Template, TemplateKind};

verus! {

/// A supplied argument, and equally a fully resolved binding: a parameter
/// name and the bytes that stand for it.
#[derive(Clone, Debug, PartialEq, Eq)]
pub struct Argument {
    pub name: Vec<u8>,
    pub value: Vec<u8>,
}

/// The binding a list of arguments denotes: name and value bytes, in order.
pub open spec fn arg_views(args: Seq<Argument>) -> Seq<(Seq<u8>, Seq<u8>)> {
    args.map_values(|a: Argument| (a.name@, a.value@))
}

/// The value bound to `name`, by the first binding carrying it.
pub open spec fn lookup(binds: Seq<(Seq<u8>, Seq<u8>)>, name: Seq<u8>) -> Option<Seq<u8>>
    decreases binds.len(),
{
    if binds.len() == 0 {
        None
    } else if binds[0].0 == name {
        Some(binds[0].1)
    } else {
        lookup(binds.drop_first(), name)
    }
}

/// The effective value of a declared parameter: the supplied argument
/// wins, then the value declared on the input, then the default.
pub open spec fn effective_value(p: Parameter, supplied: Seq<(Seq<u8>, Seq<u8>)>) -> Option<
    Seq<u8>,
> {
    match lookup(supplied, p.name@) {
        Some(v) => Some(v),
        None => match p.value {
            Some(v) => Some(v@),
            None => match p.default {
                Some(d) => Some(d@),
                None => None,
            },
        },
    }
}

/// Every parameter that a text field of the kind references has an
/// effective value. Unreferenced declared parameters need none.
pub open spec fn referenced_resolvable(
    params: Seq<Parameter>,
    supplied: Seq<(Seq<u8>, Seq<u8>)>,
    kind: TemplateKind,
) -> bool {
    forall|i: int|
        0 <= i < params.len() && kind_references_param(kind, (#[trigger] params[i]).name@)
            ==> effective_value(params[i], supplied) is Some
}

/// The resolved bindings: one per declared parameter that has an
/// effective value, in declaration order.
pub open spec fn resolved_binds(params: Seq<Parameter>, supplied: Seq<(Seq<u8>, Seq<u8>)>) -> Seq<
    (Seq<u8>, Seq<u8>),
>
    decreases params.len(),
{
    if params.len() == 0 {
        Seq::empty()
    } else {
        resolved_binds(params.drop_last(), supplied) + match effective_value(
            params.last(),
            supplied,
        ) {
            Some(v) => seq![(params.last().name@, v)],
            None => Seq::empty(),
        }
    }
}

/// Resolve the declared inputs against the supplied arguments, for a
/// template of the given kind. Every resolvable parameter is bound
/// (argument over declared value over default); a parameter that no
/// text field references may stay unresolved, but a referenced one with
/// neither a supplied value, a declared value nor a default is an
/// `UnresolvedReference`.
pub fn resolve_parameters(
    params: &Vec<Parameter>,
    args: &Vec<Argument>,
    kind: &TemplateKind,
) -> (r: Result<Vec<Argument>, DefinitionError>)
    ensures
        r is Ok <==> referenced_resolvable(params@, arg_views(args@), *kind),
        r matches Ok(b) ==> arg_views(b@) == resolved_binds(params@, arg_views(args@)),
        r is Err ==> r == Err::<Vec<Argument>, DefinitionError>(
            DefinitionError::UnresolvedReference,
        ),
{
    let mut out: Vec<Argument> = Vec::new();
    let mut i: usize = 0;
    proof {
        assert(arg_views(out@) =~= resolved_binds(params@.take(0), arg_views(args@)));
    }
    while i < params.len()
        invariant
            i <= params@.len(),
            arg_views(out@) == resolved_binds(params@.take(i as int), arg_views(args@)),
            forall|j: int|
                0 <= j < i && kind_references_param(*kind, (#[trigger] params@[j]).name@)
                    ==> effective_value(params@[j], arg_views(args@)) is Some,
        decreases params@.len() - i,
    {
        proof {
            assert(params@.take(i + 1).drop_last() =~= params@.take(i as int));
            assert(params@.take(i + 1).last() == params@[i as int]);
        }
        let p = &params[i];
        let supplied = lookup_arg(args, &p.name);
        let effective = match supplied {
            Some(v) => Some(v),
            None => match &p.value {
                Some(v) => Some(v.clone()),
                None => match &p.default {
                    Some(d) => Some(d.clone()),
                    None => None,
                },
            },
        };
        match effective {
            Some(value) => {
                assert(Some(value@) == effective_value(params@[i as int], arg_views(args@)));
                out.push(Argument { name: p.name.clone(), value });
                proof {
                    assert(arg_views(out@) =~= resolved_binds(
                        params@.take(i + 1),
                        arg_views(args@),
                    ));
                }
            },
            None => {
                assert(effective_value(params@[i as int], arg_views(args@)) is None);
                if kind_references(kind, &p.name) {
                    return Err(DefinitionError::UnresolvedReference);
                }
            },
        }
        i = i + 1;
    }
    proof {
        assert(params@.take(params@.len() as int) =~= params@);
    }
    Ok(out)
}

/// Are the bytes of `a` exactly those of `b`?
pub fn bytes_eq(a: &Vec<u8>, b: &Vec<u8>) -> (r: bool)
    ensures
        r == (a@ == b@),
{
    if a.len() != b.len() {
        return false;
    }
    let mut i: usize = 0;
    while i < a.len()
        invariant
            i <= a@.len(),
            a@.len() == b@.len(),
            forall|j: int| 0 <= j < i ==> a@[j] == b@[j],
        decreases a@.len() - i,
    {
        if a[i] != b[i] {
            return false;
        }
        i = i + 1;
    }
    proof {
        assert(a@ =~= b@);
    }
    true
}

/// The first supplied argument named `name`, as `lookup` denotes it.
fn lookup_arg(args: &Vec<Argument>, name: &Vec<u8>) -> (r: Option<Vec<u8>>)
    ensures
        match r {
            Some(v) => Some(v@) == lookup(arg_views(args@), name@),
            None => lookup(arg_views(args@), name@) is None,
        },
{
    proof {
        assert(arg_views(args@).skip(0) =~= arg_views(args@));
    }
    let mut i: usize = 0;
    while i < args.len()
        invariant
            i <= args@.len(),
            lookup(arg_views(args@), name@) == lookup(arg_views(args@).skip(i as int), name@),
        decreases args@.len() - i,
    {
        proof {
            assert(arg_views(args@).skip(i as int).drop_first() =~= arg_views(args@).skip(
                i as int + 1,
            ));
        }
        if bytes_eq(&args[i].name, name) {
            return Some(args[i].value.clone());
        }
        i = i + 1;
    }
    None
}

/// The bytes `{{inputs.parameters.` that open a placeholder.
pub open spec fn opener() -> Seq<u8> {
    seq![
        123u8, 123u8, 105u8, 110u8, 112u8, 117u8, 116u8, 115u8, 46u8, 112u8, 97u8, 114u8, 97u8,
        109u8, 101u8, 116u8, 101u8, 114u8, 115u8, 46u8,
    ]
}

/// The bytes `}}` that close a placeholder.
pub open spec fn closer() -> Seq<u8> {
    seq![125u8, 125u8]
}

/// The placeholder that references the parameter named `name`.
pub open spec fn placeholder(name: Seq<u8>) -> Seq<u8> {
    opener() + name + closer()
}

/// `p` is a prefix of `s`.
pub open spec fn is_prefix(p: Seq<u8>, s: Seq<u8>) -> bool {
    p.len() <= s.len() && s.take(p.len() as int) == p
}

/// Index of the first binding whose placeholder opens `s`, if any.
pub open spec fn first_binding(s: Seq<u8>, binds: Seq<(Seq<u8>, Seq<u8>)>) -> Option<int>
    decreases binds.len(),
{
    if binds.len() == 0 {
        None
    } else if is_prefix(placeholder(binds[0].0), s) {
        Some(0)
    } else {
        match first_binding(s, binds.drop_first()) {
            Some(j) => Some(j + 1),
            None => None,
        }
    }
}

/// The substitution of placeholders in `s` by their bound values, left to
/// right, earlier bindings taking precedence, the inserted bytes never
/// re-scanned.
pub open spec fn spec_substitute(s: Seq<u8>, binds: Seq<(Seq<u8>, Seq<u8>)>) -> Seq<u8>
    decreases s.len(),
{
    if s.len() == 0 {
        Seq::empty()
    } else {
        match first_binding(s, binds) {
            Some(j) => {
                let p = placeholder(binds[j].0);
                if 0 < p.len() <= s.len() {
                    binds[j].1 + spec_substitute(s.skip(p.len() as int), binds)
                } else {
                    // `first_binding` only answers with a placeholder that
                    // prefixes `s`, so this branch is never the case.
                    seq![s[0]] + spec_substitute(s.drop_first(), binds)
                }
            },
            None => seq![s[0]] + spec_substitute(s.drop_first(), binds),
        }
    }
}

/// Law: binding is deterministic — the bound bytes are a function of the
/// template bytes and the bindings alone, so two binds of the same
/// template to the same arguments are byte-identical.
pub proof fn lemma_substitute_deterministic(
    s: Seq<u8>,
    binds: Seq<(Seq<u8>, Seq<u8>)>,
    r1: Seq<u8>,
    r2: Seq<u8>,
)
    requires
        r1 == spec_substitute(s, binds),
        r2 == spec_substitute(s, binds),
    ensures
        r1 == r2,
{
}

/// The placeholder bytes for one parameter name.
fn make_placeholder(name: &Vec<u8>) -> (r: Vec<u8>)
    ensures
        r@ == placeholder(name@),
{
    let mut v: Vec<u8> = Vec::new();
    v.push(123);
    v.push(123);
    v.push(105);
    v.push(110);
    v.push(112);
    v.push(117);
    v.push(116);
    v.push(115);
    v.push(46);
    v.push(112);
    v.push(97);
    v.push(114);
    v.push(97);
    v.push(109);
    v.push(101);
    v.push(116);
    v.push(101);
    v.push(114);
    v.push(115);
    v.push(46);
    assert(v@ =~= opener());
    let mut i: usize = 0;
    while i < name.len()
        invariant
            i <= name@.len(),
            v@ == opener() + name@.take(i as int),
        decreases name@.len() - i,
    {
        v.push(name[i]);
        proof {
            assert(v@ =~= opener() + name@.take(i as int + 1));
        }
        i = i + 1;
    }
    v.push(125);
    v.push(125);
    proof {
        assert(name@.take(name@.len() as int) =~= name@);
        assert(v@ =~= opener() + name@ + closer());
    }
    v
}

/// Does `p` occur at position `pos` of `s`?
fn matches_at(s: &Vec<u8>, pos: usize, p: &Vec<u8>) -> (r: bool)
    requires
        pos <= s@.len(),
    ensures
        r == is_prefix(p@, s@.skip(pos as int)),
{
    let slen = s.len();
    if p.len() > slen - pos {
        return false;
    }
    let mut j: usize = 0;
    while j < p.len()
        invariant
            slen == s@.len(),
            pos + p@.len() <= s@.len(),
            j <= p@.len(),
            forall|k: int| 0 <= k < j ==> s@[pos + k] == p@[k],
        decreases p@.len() - j,
    {
        if s[pos + j] != p[j] {
            assert(s@.skip(pos as int).take(p@.len() as int)[j as int] != p@[j as int]);
            return false;
        }
        j = j + 1;
    }
    proof {
        assert(s@.skip(pos as int).take(p@.len() as int) =~= p@);
    }
    true
}

/// `pat` occurs somewhere in `s`.
pub open spec fn occurs_in(s: Seq<u8>, pat: Seq<u8>) -> bool {
    exists|i: int| 0 <= i <= s.len() - pat.len() && is_prefix(pat, s.skip(i))
}

pub open spec fn opt_occurs(o: Option<Vec<u8>>, pat: Seq<u8>) -> bool {
    match o {
        Some(v) => occurs_in(v@, pat),
        None => false,
    }
}

pub open spec fn list_occurs(l: Seq<Vec<u8>>, pat: Seq<u8>) -> bool {
    exists|i: int| 0 <= i < l.len() && occurs_in((#[trigger] l[i])@, pat)
}

pub open spec fn container_occurs(c: crate::template::ContainerTemplate, pat: Seq<u8>) -> bool {
    ||| occurs_in(c.image@, pat)
    ||| list_occurs(c.command@, pat)
    ||| list_occurs(c.args@, pat)
}

/// Some text field of the kind holds the placeholder of the parameter
/// named `name` — the template references that input. Graph kinds have
/// no text fields of their own: their tasks and steps bind at their own
/// invocation.
pub open spec fn kind_references_param(kind: TemplateKind, name: Seq<u8>) -> bool {
    let pat = placeholder(name);
    match kind {
        TemplateKind::Container(c) => container_occurs(c, pat),
        TemplateKind::ContainerSet(cs) => exists|i: int|
            0 <= i < cs@.len() && container_occurs(#[trigger] cs@[i], pat),
        TemplateKind::Script(x) => occurs_in(x.image@, pat) || occurs_in(x.source@, pat),
        TemplateKind::Resource(x) => occurs_in(x.action@, pat) || occurs_in(x.manifest@, pat)
            || opt_occurs(x.success_condition, pat) || opt_occurs(x.failure_condition, pat),
        TemplateKind::Suspend(_) => false,
        TemplateKind::Dag(_) => false,
        TemplateKind::Steps(_) => false,
        TemplateKind::Http(x) => occurs_in(x.url@, pat) || opt_occurs(x.body, pat),
        TemplateKind::Data(x) => occurs_in(x.source@, pat),
    }
}

/// Does `pat` occur anywhere in `s`?
fn occurs(s: &Vec<u8>, pat: &Vec<u8>) -> (r: bool)
    ensures
        r == occurs_in(s@, pat@),
{
    if pat.len() > s.len() {
        return false;
    }
    if pat.len() == 0 {
        proof {
            assert(s@.skip(0) =~= s@);
            assert(s@.take(0) =~= pat@);
            assert(is_prefix(pat@, s@.skip(0)));
        }
        return true;
    }
    let slen = s.len();
    let plen = pat.len();
    let last = slen - plen;
    let mut i: usize = 0;
    while i <= last
        invariant
            slen == s@.len(),
            plen == pat@.len(),
            1 <= plen <= slen,
            last == slen - plen,
            i <= last + 1,
            forall|j: int| 0 <= j < i ==> !is_prefix(pat@, s@.skip(j)),
        decreases last + 1 - i,
    {
        if matches_at(s, i, pat) {
            return true;
        }
        i = i + 1;
    }
    false
}

fn opt_refs(o: &Option<Vec<u8>>, pat: &Vec<u8>) -> (r: bool)
    ensures
        r == opt_occurs(*o, pat@),
{
    match o {
        Some(v) => occurs(v, pat),
        None => false,
    }
}

fn list_refs(l: &Vec<Vec<u8>>, pat: &Vec<u8>) -> (r: bool)
    ensures
        r == list_occurs(l@, pat@),
{
    let mut i: usize = 0;
    while i < l.len()
        invariant
            i <= l@.len(),
            forall|j: int| 0 <= j < i ==> !occurs_in((#[trigger] l@[j])@, pat@),
        decreases l@.len() - i,
    {
        if occurs(&l[i], pat) {
            return true;
        }
        i = i + 1;
    }
    false
}

fn container_refs(c: &crate::template::ContainerTemplate, pat: &Vec<u8>) -> (r: bool)
    ensures
        r == container_occurs(*c, pat@),
{
    occurs(&c.image, pat) || list_refs(&c.command, pat) || list_refs(&c.args, pat)
}

fn containers_ref(cs: &Vec<crate::template::ContainerTemplate>, pat: &Vec<u8>) -> (r: bool)
    ensures
        r == exists|i: int|
            0 <= i < cs@.len() && container_occurs(#[trigger] cs@[i], pat@),
{
    let mut i: usize = 0;
    while i < cs.len()
        invariant
            i <= cs@.len(),
            forall|j: int| 0 <= j < i ==> !container_occurs(#[trigger] cs@[j], pat@),
        decreases cs@.len() - i,
    {
        if container_refs(&cs[i], pat) {
            assert(container_occurs(cs@[i as int], pat@));
            return true;
        }
        i = i + 1;
    }
    false
}

/// Does any text field of the kind reference the parameter named `name`?
pub fn kind_references(kind: &TemplateKind, name: &Vec<u8>) -> (r: bool)
    ensures
        r == kind_references_param(*kind, name@),
{
    let pat = make_placeholder(name);
    match kind {
        TemplateKind::Container(c) => container_refs(c, &pat),
        TemplateKind::ContainerSet(cs) => containers_ref(cs, &pat),
        TemplateKind::Script(x) => occurs(&x.image, &pat) || occurs(&x.source, &pat),
        TemplateKind::Resource(x) => occurs(&x.action, &pat) || occurs(&x.manifest, &pat)
            || opt_refs(&x.success_condition, &pat) || opt_refs(&x.failure_condition, &pat),
        TemplateKind::Suspend(_) => false,
        TemplateKind::Dag(_) => false,
        TemplateKind::Steps(_) => false,
        TemplateKind::Http(x) => occurs(&x.url, &pat) || opt_refs(&x.body, &pat),
        TemplateKind::Data(x) => occurs(&x.source, &pat),
    }
}

/// Find the first pattern of `pats` that occurs at position `pos` of `s`.
fn find_pattern(s: &Vec<u8>, pos: usize, pats: &Vec<Vec<u8>>) -> (r: Option<usize>)
    requires
        pos <= s@.len(),
    ensures
        match r {
            Some(j) => j < pats@.len() && is_prefix(pats@[j as int]@, s@.skip(pos as int))
                && forall|k: int| 0 <= k < j ==> !is_prefix(
                (#[trigger] pats@[k])@,
                s@.skip(pos as int),
            ),
            None => forall|k: int|
                0 <= k < pats@.len() ==> !is_prefix((#[trigger] pats@[k])@, s@.skip(pos as int)),
        },
{
    let mut j: usize = 0;
    while j < pats.len()
        invariant
            j <= pats@.len(),
            pos <= s@.len(),
            forall|k: int|
                0 <= k < j ==> !is_prefix((#[trigger] pats@[k])@, s@.skip(pos as int)),
        decreases pats@.len() - j,
    {
        if matches_at(s, pos, &pats[j]) {
            return Some(j);
        }
        j = j + 1;
    }
    None
}

/// `first_binding` answers `r` exactly when `r` names the earliest
/// binding whose placeholder opens `s` (or none does).
proof fn lemma_first_binding_char(s: Seq<u8>, binds: Seq<(Seq<u8>, Seq<u8>)>, r: Option<int>)
    requires
        match r {
            Some(j) => 0 <= j < binds.len() && is_prefix(placeholder(binds[j].0), s) && forall|
                k: int,
            | 0 <= k < j ==> !is_prefix(placeholder(#[trigger] binds[k].0), s),
            None => forall|k: int|
                0 <= k < binds.len() ==> !is_prefix(placeholder(#[trigger] binds[k].0), s),
        },
    ensures
        first_binding(s, binds) == r,
    decreases binds.len(),
{
    if binds.len() == 0 {
        assert(r is None);
    } else if is_prefix(placeholder(binds[0].0), s) {
        assert(r == Some(0int));
    } else {
        let t = binds.drop_first();
        assert(forall|k: int| 0 <= k < t.len() ==> t[k] == binds[k + 1]);
        match r {
            Some(j) => {
                assert(j != 0);
                lemma_first_binding_char(s, t, Some(j - 1));
            },
            None => {
                lemma_first_binding_char(s, t, None);
            },
        }
    }
}

/// Substitute every placeholder of the bindings into `s`, left to right.
/// The result is a function of the template bytes and the bindings alone.
pub fn substitute(s: &Vec<u8>, binds: &Vec<Argument>) -> (r: Vec<u8>)
    ensures
        r@ == spec_substitute(s@, arg_views(binds@)),
{
    let ghost gb = arg_views(binds@);
    let mut pats: Vec<Vec<u8>> = Vec::new();
    let mut i: usize = 0;
    while i < binds.len()
        invariant
            i <= binds@.len(),
            pats@.len() == i,
            forall|j: int| 0 <= j < i ==> (#[trigger] pats@[j])@ == placeholder(binds@[j].name@),
        decreases binds@.len() - i,
    {
        pats.push(make_placeholder(&binds[i].name));
        i = i + 1;
    }
    proof {
        assert(gb.len() == binds@.len());
        assert(forall|j: int|
            0 <= j < gb.len() ==> (#[trigger] gb[j]).0 == binds@[j].name@ && gb[j].1
                == binds@[j].value@);
    }
    let mut out: Vec<u8> = Vec::new();
    let mut pos: usize = 0;
    proof {
        assert(s@.skip(0) =~= s@);
        assert(Seq::<u8>::empty() + spec_substitute(s@, gb) =~= spec_substitute(s@, gb));
    }
    while pos < s.len()
        invariant
            pos <= s@.len(),
            pats@.len() == gb.len(),
            gb == arg_views(binds@),
            gb.len() == binds@.len(),
            forall|j: int|
                0 <= j < gb.len() ==> (#[trigger] gb[j]).0 == binds@[j].name@ && gb[j].1
                    == binds@[j].value@,
            forall|j: int|
                0 <= j < pats@.len() ==> (#[trigger] pats@[j])@ == placeholder(binds@[j].name@),
            spec_substitute(s@, gb) == out@ + spec_substitute(s@.skip(pos as int), gb),
        decreases s@.len() - pos,
    {
        let ghost suffix = s@.skip(pos as int);
        match find_pattern(s, pos, &pats) {
            Some(j) => {
                proof {
                    assert(pats@[j as int]@ == placeholder(binds@[j as int].name@));
                    assert(is_prefix(placeholder(gb[j as int].0), suffix));
                    assert forall|k: int| 0 <= k < j implies !is_prefix(
                        placeholder(#[trigger] gb[k].0),
                        suffix,
                    ) by {
                        assert(pats@[k]@ == placeholder(binds@[k].name@));
                        assert(!is_prefix(pats@[k]@, suffix));
                    }
                    lemma_first_binding_char(suffix, gb, Some(j as int));
                    let p = placeholder(gb[j as int].0);
                    assert(suffix.skip(p.len() as int) =~= s@.skip(pos + p.len()));
                    assert(spec_substitute(suffix, gb) == gb[j as int].1 + spec_substitute(
                        s@.skip(pos + p.len()),
                        gb,
                    ));
                }
                let pat_len = pats[j].len();
                let v = &binds[j].value;
                let ghost out0 = out@;
                let mut k: usize = 0;
                while k < v.len()
                    invariant
                        k <= v@.len(),
                        out@ == out0 + v@.take(k as int),
                    decreases v@.len() - k,
                {
                    out.push(v[k]);
                    proof {
                        assert(out@ =~= out0 + v@.take(k as int + 1));
                    }
                    k = k + 1;
                }
                proof {
                    assert(v@.take(v@.len() as int) =~= v@);
                    assert(out@ == out0 + gb[j as int].1);
                }
                pos = pos + pat_len;
            },
            None => {
                proof {
                    assert forall|k: int| 0 <= k < gb.len() implies !is_prefix(
                        placeholder(#[trigger] gb[k].0),
                        suffix,
                    ) by {
                        assert(pats@[k]@ == placeholder(binds@[k].name@));
                        assert(!is_prefix(pats@[k]@, suffix));
                    }
                    lemma_first_binding_char(suffix, gb, None);
                    assert(suffix.drop_first() =~= s@.skip(pos as int + 1));
                    assert(spec_substitute(suffix, gb) == seq![s@[pos as int]]
                        + spec_substitute(s@.skip(pos as int + 1), gb));
                }
                out.push(s[pos]);
                pos = pos + 1;
            },
        }
    }
    proof {
        assert(s@.skip(s@.len() as int) =~= Seq::<u8>::empty());
        assert(out@ + spec_substitute(Seq::<u8>::empty(), gb) =~= out@);
    }
    out
}

/// An optional text field after binding.
pub open spec fn opt_bound(
    pre: Option<Vec<u8>>,
    post: Option<Vec<u8>>,
    b: Seq<(Seq<u8>, Seq<u8>)>,
) -> bool {
    match (pre, post) {
        (Some(x), Some(y)) => y@ == spec_substitute(x@, b),
        (None, None) => true,
        _ => false,
    }
}

/// A list of text fields after binding, element for element.
pub open spec fn list_bound(pre: Seq<Vec<u8>>, post: Seq<Vec<u8>>, b: Seq<(Seq<u8>, Seq<u8>)>) -> bool {
    &&& post.len() == pre.len()
    &&& forall|i: int|
        0 <= i < pre.len() ==> (#[trigger] post[i])@ == spec_substitute(pre[i]@, b)
}

/// A container payload after binding.
pub open spec fn container_bound(
    pre: crate::template::ContainerTemplate,
    post: crate::template::ContainerTemplate,
    b: Seq<(Seq<u8>, Seq<u8>)>,
) -> bool {
    &&& post.image@ == spec_substitute(pre.image@, b)
    &&& list_bound(pre.command@, post.command@, b)
    &&& list_bound(pre.args@, post.args@, b)
}

/// A template kind after binding: every text field substituted, the graph
/// structure (tasks, steps, suspend) untouched — their own arguments are
/// bound at their own invocation.
pub open spec fn kind_bound(pre: TemplateKind, post: TemplateKind, b: Seq<(Seq<u8>, Seq<u8>)>) -> bool {
    match (pre, post) {
        (TemplateKind::Container(x), TemplateKind::Container(y)) => container_bound(x, y, b),
        (TemplateKind::ContainerSet(xs), TemplateKind::ContainerSet(ys)) => {
            &&& ys@.len() == xs@.len()
            &&& forall|i: int|
                0 <= i < xs@.len() ==> container_bound(xs@[i], #[trigger] ys@[i], b)
        },
        (TemplateKind::Script(x), TemplateKind::Script(y)) => {
            &&& y.image@ == spec_substitute(x.image@, b)
            &&& y.source@ == spec_substitute(x.source@, b)
        },
        (TemplateKind::Resource(x), TemplateKind::Resource(y)) => {
            &&& y.action@ == spec_substitute(x.action@, b)
            &&& y.manifest@ == spec_substitute(x.manifest@, b)
            &&& opt_bound(x.success_condition, y.success_condition, b)
            &&& opt_bound(x.failure_condition, y.failure_condition, b)
        },
        (TemplateKind::Suspend(x), TemplateKind::Suspend(y)) => y == x,
        (TemplateKind::Dag(x), TemplateKind::Dag(y)) => y == x,
        (TemplateKind::Steps(x), TemplateKind::Steps(y)) => y == x,
        (TemplateKind::Http(x), TemplateKind::Http(y)) => {
            &&& y.url@ == spec_substitute(x.url@, b)
            &&& opt_bound(x.body, y.body, b)
        },
        (TemplateKind::Data(x), TemplateKind::Data(y)) => y.source@ == spec_substitute(x.source@, b),
        _ => false,
    }
}

/// A whole template after binding: text fields substituted, everything
/// else — name, declarations, policies — exactly as declared.
pub open spec fn template_bound(pre: Template, post: Template, b: Seq<(Seq<u8>, Seq<u8>)>) -> bool {
    &&& post.name == pre.name
    &&& post.inputs == pre.inputs
    &&& post.outputs == pre.outputs
    &&& post.fail_fast == pre.fail_fast
    &&& post.daemon == pre.daemon
    &&& post.parallelism == pre.parallelism
    &&& post.retry_strategy == pre.retry_strategy
    &&& post.synchronization == pre.synchronization
    &&& post.cache_policy == pre.cache_policy
    &&& post.archive_location == pre.archive_location
    &&& kind_bound(pre.kind, post.kind, b)
}

fn substitute_opt(o: &Option<Vec<u8>>, binds: &Vec<Argument>) -> (r: Option<Vec<u8>>)
    ensures
        opt_bound(*o, r, arg_views(binds@)),
{
    match o {
        Some(x) => Some(substitute(x, binds)),
        None => None,
    }
}

fn substitute_list(l: &Vec<Vec<u8>>, binds: &Vec<Argument>) -> (r: Vec<Vec<u8>>)
    ensures
        list_bound(l@, r@, arg_views(binds@)),
{
    let mut out: Vec<Vec<u8>> = Vec::new();
    let mut i: usize = 0;
    while i < l.len()
        invariant
            i <= l@.len(),
            out@.len() == i,
            forall|j: int|
                0 <= j < i ==> (#[trigger] out@[j])@ == spec_substitute(l@[j]@, arg_views(binds@)),
        decreases l@.len() - i,
    {
        out.push(substitute(&l[i], binds));
        i = i + 1;
    }
    out
}

fn substitute_container(
    c: &crate::template::ContainerTemplate,
    binds: &Vec<Argument>,
) -> (r: crate::template::ContainerTemplate)
    ensures
        container_bound(*c, r, arg_views(binds@)),
{
    crate::template::ContainerTemplate {
        image: substitute(&c.image, binds),
        command: substitute_list(&c.command, binds),
        args: substitute_list(&c.args, binds),
    }
}

/// Bind a template to the supplied arguments: resolve the declared inputs
/// (argument over declared value over default) and substitute the
/// resolved bindings into every text field. Pure: the result is pinned,
/// byte for byte, by the template and the arguments — the precondition
/// for memoization. Fails with `UnresolvedReference` exactly when some
/// input referenced by a placeholder in a text field has neither a
/// supplied value, a declared value nor a default; unreferenced
/// declared inputs never abort the bind.
pub fn bind_template(t: Template, args: &Vec<Argument>) -> (r: Result<Template, DefinitionError>)
    ensures
        r is Ok <==> referenced_resolvable(t.inputs.parameters@, arg_views(args@), t.kind),
        r is Err ==> r == Err::<Template, DefinitionError>(DefinitionError::UnresolvedReference),
        r matches Ok(bt) ==> template_bound(
            t,
            bt,
            resolved_binds(t.inputs.parameters@, arg_views(args@)),
        ),
{
    let resolved = match resolve_parameters(&t.inputs.parameters, args, &t.kind) {
        Ok(b) => b,
        Err(_) => {
            return Err(DefinitionError::UnresolvedReference);
        },
    };
    let kind = match t.kind {
        TemplateKind::Container(c) => TemplateKind::Container(substitute_container(&c, &resolved)),
        TemplateKind::ContainerSet(cs) => {
            let mut out: Vec<crate::template::ContainerTemplate> = Vec::new();
            let mut i: usize = 0;
            while i < cs.len()
                invariant
                    i <= cs@.len(),
                    out@.len() == i,
                    forall|j: int|
                        0 <= j < i ==> container_bound(
                            cs@[j],
                            #[trigger] out@[j],
                            arg_views(resolved@),
                        ),
                decreases cs@.len() - i,
            {
                out.push(substitute_container(&cs[i], &resolved));
                i = i + 1;
            }
            TemplateKind::ContainerSet(out)
        },
        TemplateKind::Script(x) => TemplateKind::Script(
            crate::template::ScriptSpec {
                image: substitute(&x.image, &resolved),
                source: substitute(&x.source, &resolved),
            },
        ),
        TemplateKind::Resource(x) => TemplateKind::Resource(
            crate::template::ResourceSpec {
                action: substitute(&x.action, &resolved),
                manifest: substitute(&x.manifest, &resolved),
                success_condition: substitute_opt(&x.success_condition, &resolved),
                failure_condition: substitute_opt(&x.failure_condition, &resolved),
            },
        ),
        TemplateKind::Suspend(x) => TemplateKind::Suspend(x),
        TemplateKind::Dag(x) => TemplateKind::Dag(x),
        TemplateKind::Steps(x) => TemplateKind::Steps(x),
        TemplateKind::Http(x) => TemplateKind::Http(
            crate::template::HttpSpec {
                url: substitute(&x.url, &resolved),
                body: substitute_opt(&x.body, &resolved),
            },
        ),
        TemplateKind::Data(x) => TemplateKind::Data(
            crate::template::DataSpec { source: substitute(&x.source, &resolved) },
        ),
    };
    Ok(
        Template {
            name: t.name,
            inputs: t.inputs,
            outputs: t.outputs,
            kind,
            fail_fast: t.fail_fast,
            daemon: t.daemon,
            parallelism: t.parallelism,
            retry_strategy: t.retry_strategy,
            synchronization: t.synchronization,
            cache_policy: t.cache_policy,
            archive_location: t.archive_location,
        },
    )
}

/// Two optional text fields with the same bytes.
pub open spec fn opt_views_eq(a: Option<Vec<u8>>, b: Option<Vec<u8>>) -> bool {
    match (a, b) {
        (Some(x), Some(y)) => x@ == y@,
        (None, None) => true,
        _ => false,
    }
}

/// Two container payloads with the same bytes everywhere.
pub open spec fn container_views_eq(
    a: crate::template::ContainerTemplate,
    b: crate::template::ContainerTemplate,
) -> bool {
    &&& a.image@ == b.image@
    &&& a.command@.len() == b.command@.len()
    &&& forall|i: int| 0 <= i < a.command@.len() ==> (#[trigger] a.command@[i])@ == b.command@[i]@
    &&& a.args@.len() == b.args@.len()
    &&& forall|i: int| 0 <= i < a.args@.len() ==> (#[trigger] a.args@[i])@ == b.args@[i]@
}

/// Two template kinds of the same variant with the same bytes everywhere.
pub open spec fn kind_views_eq(a: TemplateKind, b: TemplateKind) -> bool {
    match (a, b) {
        (TemplateKind::Container(x), TemplateKind::Container(y)) => container_views_eq(x, y),
        (TemplateKind::ContainerSet(xs), TemplateKind::ContainerSet(ys)) => {
            &&& xs@.len() == ys@.len()
            &&& forall|i: int| 0 <= i < xs@.len() ==> container_views_eq(
                #[trigger] xs@[i],
                ys@[i],
            )
        },
        (TemplateKind::Script(x), TemplateKind::Script(y)) => x.image@ == y.image@ && x.source@
            == y.source@,
        (TemplateKind::Resource(x), TemplateKind::Resource(y)) => {
            &&& x.action@ == y.action@
            &&& x.manifest@ == y.manifest@
            &&& opt_views_eq(x.success_condition, y.success_condition)
            &&& opt_views_eq(x.failure_condition, y.failure_condition)
        },
        (TemplateKind::Suspend(x), TemplateKind::Suspend(y)) => x == y,
        (TemplateKind::Dag(x), TemplateKind::Dag(y)) => x == y,
        (TemplateKind::Steps(x), TemplateKind::Steps(y)) => x == y,
        (TemplateKind::Http(x), TemplateKind::Http(y)) => x.url@ == y.url@ && opt_views_eq(
            x.body,
            y.body,
        ),
        (TemplateKind::Data(x), TemplateKind::Data(y)) => x.source@ == y.source@,
        _ => false,
    }
}

/// Law: binding is deterministic. Any two templates bound from the same
/// template and the same bindings agree byte for byte: same name, same
/// declarations and policies, and the same bytes in every text field.
pub proof fn lemma_bind_deterministic(
    t: Template,
    b: Seq<(Seq<u8>, Seq<u8>)>,
    r1: Template,
    r2: Template,
)
    requires
        template_bound(t, r1, b),
        template_bound(t, r2, b),
    ensures
        r1.name == r2.name,
        r1.inputs == r2.inputs,
        r1.fail_fast == r2.fail_fast,
        r1.daemon == r2.daemon,
        r1.parallelism == r2.parallelism,
        r1.retry_strategy == r2.retry_strategy,
        r1.synchronization == r2.synchronization,
        r1.outputs == r2.outputs,
        r1.cache_policy == r2.cache_policy,
        r1.archive_location == r2.archive_location,
        kind_views_eq(r1.kind, r2.kind),
{
    match (t.kind, r1.kind, r2.kind) {
        (TemplateKind::ContainerSet(xs), TemplateKind::ContainerSet(y1), TemplateKind::ContainerSet(y2)) => {
            assert forall|i: int| 0 <= i < y1@.len() implies container_views_eq(
                #[trigger] y1@[i],
                y2@[i],
            ) by {
                assert(container_bound(xs@[i], y1@[i], b));
                assert(container_bound(xs@[i], y2@[i], b));
            }
        },
        _ => {},
    }
}

} // verus!
