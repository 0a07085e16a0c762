use vstd::prelude::*;
use vstd::string::*;
use crate::record::{Attrs, Fields};
use crate::text::{contains_str, join_all, join_strs, strs, with_path_ident, wrapper_names};

verus! {

/// The shape of a type expression, as far as the type names in it matter.
#[derive(Debug)]
pub enum TypeShape {
    /// A path such as `a::B<C>`.
    Path(Vec<Segment>),
    /// An array, group, parenthesised, pointer, reference or slice type: its element.
    Elem(Box<TypeShape>),
    /// A bare function type: its return type, if written.
    BareFn(Option<Box<TypeShape>>),
    Tuple(Vec<TypeShape>),
    /// Anything else, including generic arguments that are not types.
    Other,
}

/// One segment of a path, with its arguments.
#[derive(Debug)]
pub struct Segment {
    pub ident: String,
    pub args: SegmentArgs,
}

/// The arguments of a path segment.
#[derive(Debug)]
pub enum SegmentArgs {
    /// No arguments.
    Bare,
    /// `<..>`: the argument types, a binding `Item = T` giving `T`.
    Angle(Vec<TypeShape>),
    /// `(..) -> T`: the return type, if written.
    Paren(Option<Box<TypeShape>>),
}

/// The whole path's name: its segments joined by `::`.
pub open spec fn path_name(segs: Seq<Segment>) -> Seq<char> {
    join_all(segs.map_values(|s: Segment| s.ident@), "::"@)
}

/// The type names of a type: for a path, for each segment those of its arguments
/// followed by the whole path's name unless it is a wrapper name; for the other
/// shapes, those of the types inside, in order.
pub open spec fn type_idents(t: TypeShape) -> Seq<Seq<char>>
    decreases t, 0int,
{
    match t {
        TypeShape::Path(segs) => segments_idents(segs@, path_name(segs@), segs@.len() as int),
        TypeShape::Elem(b) => type_idents(*b),
        TypeShape::BareFn(o) => match o {
            Some(b) => type_idents(*b),
            None => Seq::<Seq<char>>::empty(),
        },
        TypeShape::Tuple(v) => types_idents(v@, v@.len() as int),
        TypeShape::Other => Seq::<Seq<char>>::empty(),
    }
}

/// The type names of the first `n` types, in order.
pub open spec fn types_idents(ts: Seq<TypeShape>, n: int) -> Seq<Seq<char>>
    decreases ts, n,
{
    if n <= 0 || n > ts.len() {
        Seq::<Seq<char>>::empty()
    } else {
        types_idents(ts, n - 1) + type_idents(ts[n - 1])
    }
}

/// The type names of the first `n` segments of a path named `name`.
pub open spec fn segments_idents(segs: Seq<Segment>, name: Seq<char>, n: int) -> Seq<Seq<char>>
    decreases segs, n,
{
    if n <= 0 || n > segs.len() {
        Seq::<Seq<char>>::empty()
    } else {
        let nested = match segs[n - 1].args {
            SegmentArgs::Bare => Seq::<Seq<char>>::empty(),
            SegmentArgs::Angle(v) => types_idents(v@, v@.len() as int),
            SegmentArgs::Paren(o) => match o {
                Some(b) => type_idents(*b),
                None => Seq::<Seq<char>>::empty(),
            },
        };
        segments_idents(segs, name, n - 1) + if wrapper_names().contains(name) {
            nested
        } else {
            nested.push(name)
        }
    }
}

/// Appends `more` to `acc`.
fn extend(acc: &mut Vec<String>, more: Vec<String>)
    ensures
        strs(final(acc)@) == strs(old(acc)@) + strs(more@),
{
    let ghost given = more@;
    let mut more = more;
    acc.append(&mut more);
    assert(strs(acc@) =~= strs(old(acc)@) + strs(given));
}

/// The type names of each type in turn.
fn idents_of_list(ts: &Vec<TypeShape>) -> (r: Vec<String>)
    ensures
        strs(r@) == types_idents(ts@, ts@.len() as int),
    decreases ts, 0int,
{
    let mut r: Vec<String> = Vec::new();
    let mut i: usize = 0;
    while i < ts.len()
        invariant
            i <= ts@.len(),
            strs(r@) == types_idents(ts@, i as int),
        decreases ts@.len() - i,
    {
        let more = get_idents_from_types(&ts[i]);
        extend(&mut r, more);
        i = i + 1;
    }
    r
}

/// The name of a path: its segments joined by `::`.
fn path_name_of(segs: &Vec<Segment>) -> (r: String)
    ensures
        r@ == path_name(segs@),
{
    let mut names: Vec<String> = Vec::new();
    let mut i: usize = 0;
    while i < segs.len()
        invariant
            i <= segs@.len(),
            strs(names@) == segs@.subrange(0, i as int).map_values(|s: Segment| s.ident@),
        decreases segs@.len() - i,
    {
        let ghost before = names@;
        names.push(segs[i].ident.clone());
        assert(strs(names@) =~= segs@.subrange(0, i + 1).map_values(|s: Segment| s.ident@)) by {
            assert(strs(names@) =~= strs(before).push(segs@[i as int].ident@));
        }
        i = i + 1;
    }
    assert(segs@.subrange(0, segs@.len() as int) =~= segs@);
    proof {
        reveal_strlit("::");
    }
    join_strs(&names, "::")
}

/// The type names of a path type, segment by segment: those of the segment's
/// arguments, then the whole path's name unless it is a wrapper name.
pub fn get_idents_from_paths(segs: &Vec<Segment>) -> (r: Vec<String>)
    ensures
        strs(r@) == segments_idents(segs@, path_name(segs@), segs@.len() as int),
    decreases segs, 0int,
{
    let name = path_name_of(segs);
    let mut r: Vec<String> = Vec::new();
    let mut i: usize = 0;
    while i < segs.len()
        invariant
            i <= segs@.len(),
            name@ == path_name(segs@),
            strs(r@) == segments_idents(segs@, name@, i as int),
        decreases segs@.len() - i,
    {
        let nested = match &segs[i].args {
            SegmentArgs::Bare => Vec::new(),
            SegmentArgs::Angle(v) => idents_of_list(v),
            SegmentArgs::Paren(o) => match o {
                Some(b) => get_idents_from_types(b),
                None => Vec::new(),
            },
        };
        assert(strs(nested@) =~= match segs@[i as int].args {
            SegmentArgs::Bare => Seq::<Seq<char>>::empty(),
            SegmentArgs::Angle(v) => types_idents(v@, v@.len() as int),
            SegmentArgs::Paren(o) => match o {
                Some(b) => type_idents(*b),
                None => Seq::<Seq<char>>::empty(),
            },
        });
        let more = with_path_ident(nested, name.as_str());
        extend(&mut r, more);
        i = i + 1;
    }
    r
}

/// The type names that a type mentions, in order of appearance.
pub fn get_idents_from_types(ty: &TypeShape) -> (r: Vec<String>)
    ensures
        strs(r@) == type_idents(*ty),
    decreases ty, 1int,
{
    match ty {
        TypeShape::Path(segs) => get_idents_from_paths(segs),
        TypeShape::Elem(b) => get_idents_from_types(b),
        TypeShape::BareFn(o) => match o {
            Some(b) => get_idents_from_types(b),
            None => Vec::new(),
        },
        TypeShape::Tuple(v) => idents_of_list(v),
        TypeShape::Other => Vec::new(),
    }
}

/// An attribute such as `#[derive(Serialize, Deserialize)]`: its path, and for each
/// bracketed group among its tokens, the identifiers standing directly inside it.
#[derive(Debug)]
pub struct AttrShape {
    pub path: Vec<Segment>,
    pub groups: Vec<Vec<String>>,
}

/// The attribute's path mentions the type name `ident`.
pub open spec fn attr_named(a: AttrShape, ident: Seq<char>) -> bool {
    segments_idents(a.path@, path_name(a.path@), a.path@.len() as int).contains(ident)
}

/// One of the attribute's groups holds the identifier `token`.
pub open spec fn attr_holds(a: AttrShape, token: Seq<char>) -> bool {
    exists|g: int| 0 <= g < a.groups@.len() && strs(#[trigger] a.groups@[g]@).contains(token)
}

/// Some attribute's path names `ident`.
pub open spec fn has_attr(a: Seq<AttrShape>, ident: Seq<char>) -> bool {
    exists|i: int| 0 <= i < a.len() && attr_named(#[trigger] a[i], ident)
}

/// Some attribute whose path names `ident` holds `token` in one of its groups.
pub open spec fn has_token(a: Seq<AttrShape>, ident: Seq<char>, token: Seq<char>) -> bool {
    exists|i: int| 0 <= i < a.len() && attr_named(#[trigger] a[i], ident) && attr_holds(a[i], token)
}

/// Whether some attribute's path names `ident`.
pub fn is_ident_present(attributes: &Vec<AttrShape>, ident: &str) -> (r: bool)
    ensures
        r == has_attr(attributes@, ident@),
{
    let wanted = ident.to_owned();
    let mut i: usize = 0;
    while i < attributes.len()
        invariant
            i <= attributes@.len(),
            wanted@ == ident@,
            forall|j: int| 0 <= j < i ==> !attr_named(#[trigger] attributes@[j], ident@),
        decreases attributes@.len() - i,
    {
        let names = get_idents_from_paths(&attributes[i].path);
        if contains_str(&names, &wanted) {
            return true;
        }
        i = i + 1;
    }
    false
}

/// Whether the attribute holds `token` in one of its groups.
fn holds_token(a: &AttrShape, token: &String) -> (r: bool)
    ensures
        r == attr_holds(*a, token@),
{
    let mut g: usize = 0;
    while g < a.groups.len()
        invariant
            g <= a.groups@.len(),
            forall|k: int| 0 <= k < g ==> !strs(#[trigger] a.groups@[k]@).contains(token@),
        decreases a.groups@.len() - g,
    {
        if contains_str(&a.groups[g], token) {
            return true;
        }
        g = g + 1;
    }
    false
}

/// Whether some attribute whose path names `ident` holds `token` in one of its groups.
pub fn is_ident_with_token_present(attributes: &Vec<AttrShape>, ident: &str, token: &str) -> (r: bool)
    ensures
        r == has_token(attributes@, ident@, token@),
{
    let wanted = ident.to_owned();
    let tok = token.to_owned();
    let mut i: usize = 0;
    while i < attributes.len()
        invariant
            i <= attributes@.len(),
            wanted@ == ident@,
            tok@ == token@,
            forall|j: int|
                0 <= j < i ==> !(attr_named(#[trigger] attributes@[j], ident@) && attr_holds(
                    attributes@[j],
                    token@,
                )),
        decreases attributes@.len() - i,
    {
        let names = get_idents_from_paths(&attributes[i].path);
        if contains_str(&names, &wanted) && holds_token(&attributes[i], &tok) {
            return true;
        }
        i = i + 1;
    }
    false
}

/// A field of a struct or variant: its attributes and its type.
#[derive(Debug)]
pub struct FieldShape {
    pub attrs: Vec<AttrShape>,
    pub ty: TypeShape,
}

/// The serialization facts that a declaration's attributes give: the derives of
/// `Serialize` and `Deserialize`, whether a `serde` attribute is present, and the
/// `from`/`try_from` and `into` conversions named inside one.
pub fn attrs_of(a: &Vec<AttrShape>) -> (r: Attrs)
    ensures
        r.derive_serialize == has_token(a@, "derive"@, "Serialize"@),
        r.derive_deserialize == has_token(a@, "derive"@, "Deserialize"@),
        r.serde == has_attr(a@, "serde"@),
        r.serde_from == (has_token(a@, "serde"@, "try_from"@) || has_token(a@, "serde"@, "from"@)),
        r.serde_into == has_token(a@, "serde"@, "into"@),
{
    Attrs {
        derive_serialize: is_ident_with_token_present(a, "derive", "Serialize"),
        derive_deserialize: is_ident_with_token_present(a, "derive", "Deserialize"),
        serde: is_ident_present(a, "serde"),
        serde_from: is_ident_with_token_present(a, "serde", "try_from") || is_ident_with_token_present(
            a,
            "serde",
            "from",
        ),
        serde_into: is_ident_with_token_present(a, "serde", "into"),
    }
}

/// The facts of a list of fields: whether any carries a `serde` attribute, and the
/// type names of each field's type.
pub fn fields_of(fs: &Vec<FieldShape>) -> (r: Fields)
    ensures
        r.serde_attr == exists|i: int| 0 <= i < fs@.len() && has_attr((#[trigger] fs@[i]).attrs@, "serde"@),
        r.type_lists() == fs@.map_values(|f: FieldShape| type_idents(f.ty)),
{
    let mut serde_attr = false;
    let mut types: Vec<Vec<String>> = Vec::new();
    let mut i: usize = 0;
    while i < fs.len()
        invariant
            i <= fs@.len(),
            serde_attr == exists|j: int| 0 <= j < i && has_attr((#[trigger] fs@[j]).attrs@, "serde"@),
            types@.map_values(|v: Vec<String>| strs(v@)) == fs@.subrange(0, i as int).map_values(
                |f: FieldShape| type_idents(f.ty),
            ),
        decreases fs@.len() - i,
    {
        if is_ident_present(&fs[i].attrs, "serde") {
            serde_attr = true;
        }
        let ghost before = types@;
        let names = get_idents_from_types(&fs[i].ty);
        types.push(names);
        assert(types@ =~= before.push(names));
        assert(types@.map_values(|v: Vec<String>| strs(v@)) =~= before.map_values(|v: Vec<String>| strs(v@)).push(
            strs(names@),
        ));
        assert(fs@.subrange(0, i + 1).map_values(|f: FieldShape| type_idents(f.ty)) =~= fs@.subrange(
            0,
            i as int,
        ).map_values(|f: FieldShape| type_idents(f.ty)).push(type_idents(fs@[i as int].ty)));
        i = i + 1;
    }
    assert(fs@.subrange(0, fs@.len() as int) =~= fs@);
    Fields { serde_attr, types }
}

} // verus!
