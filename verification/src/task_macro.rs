use vstd::prelude::*;
use convert_case::{Case, Casing};

verus! {

/// What `convert_case` makes of a name in `Case::Pascal`.
pub uninterp spec fn pascal_case_of(name: Seq<char>) -> Seq<char>;

/// `s.to_case(Case::Pascal)` of `convert_case`.
#[verifier::external_body]
fn pascal_case(s: &str) -> (r: String)
    ensures
        r@ == pascal_case_of(s@),
{
    s.to_case(Case::Pascal)
}

/// A generic argument of a path segment, as the task attribute reads it.
pub enum GenericArgShape<T> {
    /// A type argument.
    Type(T),
    /// A lifetime, constant or other argument.
    Other,
}

/// A path segment: its name and, where it has them, its arguments in
/// angle brackets.
pub struct PathSegmentShape<T> {
    pub ident: String,
    pub angle_args: Option<Vec<GenericArgShape<T>>>,
}

/// The type of a task function's parameter, as the task attribute reads it.
pub enum TypeShape<T> {
    /// A path type, by its segments.
    Path(Vec<PathSegmentShape<T>>),
    /// Any other type.
    Other,
}

/// A task function's parameter.
pub enum FnArgShape<T> {
    /// `self`, which a task function cannot take.
    Receiver,
    /// A typed parameter.
    Typed(TypeShape<T>),
}

/// The last segment of a path type.
pub open spec fn last_segment<T>(ty: TypeShape<T>) -> Option<PathSegmentShape<T>> {
    match ty {
        TypeShape::Path(segments) => if segments@.len() > 0 { Some(segments@.last()) } else { None },
        TypeShape::Other => None,
    }
}

/// A parameter is a dependency when its type is a path whose last segment
/// is named `Dep`.
pub open spec fn is_dependency<T>(ty: TypeShape<T>) -> bool {
    last_segment(ty) matches Some(seg) && seg.ident@ == "Dep"@
}

/// The type that a dependency parameter asks for: the first angle-bracket
/// argument of the last path segment, where it is a type.
pub open spec fn dependency_arg<T>(ty: TypeShape<T>) -> Option<T> {
    match last_segment(ty) {
        Some(seg) => match seg.angle_args {
            Some(args) => if args@.len() > 0 {
                match args@[0] {
                    GenericArgShape::Type(t) => Some(t),
                    GenericArgShape::Other => None,
                }
            } else {
                None
            },
            None => None,
        },
        None => None,
    }
}

/// Whether a parameter's type is a dependency (`Dep<..>`).
pub fn is_dependency_type<T>(ty: &TypeShape<T>) -> (r: bool)
    ensures
        r == is_dependency(*ty),
        r <==> (*ty matches TypeShape::Path(segs) && segs@.len() > 0 && segs@.last().ident@ == "Dep"@),
{
    proof {
        lemma_dependency_by_last_name(*ty);
    }
    match ty {
        TypeShape::Path(segments) => {
            if segments.len() > 0 {
                let dep = "Dep".to_owned();
                segments[segments.len() - 1].ident == dep
            } else {
                false
            }
        },
        TypeShape::Other => false,
    }
}

/// The type a dependency parameter asks for. The attribute refuses (the
/// compile fails) a type without one, so such a type is left out.
pub fn get_dependency_type<T>(ty: &TypeShape<T>) -> (r: &T)
    requires
        dependency_arg(*ty) is Some,
    ensures
        Some(*r) == dependency_arg(*ty),
{
    match ty {
        TypeShape::Path(segments) => {
            let seg = &segments[segments.len() - 1];
            match &seg.angle_args {
                Some(args) => match &args[0] {
                    GenericArgShape::Type(t) => t,
                    GenericArgShape::Other => vstd::pervasive::unreached(),
                },
                None => vstd::pervasive::unreached(),
            }
        },
        TypeShape::Other => vstd::pervasive::unreached(),
    }
}

/// The name of the struct that stands for a task function: the one path
/// given to the attribute, else the function's name in Pascal case. The
/// attribute refuses (the compile fails) more than one path or a path that
/// is not a single name, so those are left out; `attr_paths` holds each
/// path's name where it is a single one.
pub fn get_struct_name_ident(fn_name: &str, attr_paths: &Vec<Option<String>>) -> (r: String)
    requires
        attr_paths@.len() <= 1,
        attr_paths@.len() == 1 ==> attr_paths@[0] is Some,
    ensures
        attr_paths@.len() == 0 ==> r@ == pascal_case_of(fn_name@),
        attr_paths@.len() == 1 ==> r@ == attr_paths@[0]->Some_0@,
{
    if attr_paths.len() == 0 {
        pascal_case(fn_name)
    } else {
        match &attr_paths[0] {
            Some(name) => name.clone(),
            None => vstd::pervasive::unreached(),
        }
    }
}

/// For each parameter of a task function, whether it is a dependency
/// (filled from the dependency store) rather than a field of the task. The
/// attribute refuses (the compile fails) a `self` parameter, so one is
/// left out.
pub fn dependency_flags<T>(args: &Vec<FnArgShape<T>>) -> (r: Vec<bool>)
    requires
        forall|i: int| 0 <= i < args@.len() ==> !(args@[i] is Receiver),
    ensures
        r@.len() == args@.len(),
        forall|i: int| 0 <= i < args@.len() ==> (#[trigger] r@[i] <==> (args@[i] matches FnArgShape::Typed(ty) && is_dependency(ty))),
        forall|i: int| 0 <= i < args@.len() ==> (#[trigger] r@[i] <==> (args@[i] matches FnArgShape::Typed(TypeShape::Path(segs))
            && segs@.len() > 0 && segs@.last().ident@ == "Dep"@)),
{
    let mut flags: Vec<bool> = Vec::new();
    let mut i: usize = 0;
    while i < args.len()
        invariant
            i <= args@.len(),
            flags@.len() == i,
            forall|k: int| 0 <= k < i ==> (#[trigger] flags@[k] <==> (args@[k] matches FnArgShape::Typed(ty) && is_dependency(ty))),
        decreases args@.len() - i,
    {
        let flag = match &args[i] {
            FnArgShape::Typed(ty) => is_dependency_type(ty),
            FnArgShape::Receiver => false,
        };
        flags.push(flag);
        i = i + 1;
    }
    proof {
        assert forall|k: int| 0 <= k < args@.len() implies (#[trigger] flags@[k] <==> (args@[k] matches FnArgShape::Typed(TypeShape::Path(segs))
            && segs@.len() > 0 && segs@.last().ident@ == "Dep"@)) by {
            if let FnArgShape::Typed(ty) = args@[k] {
                lemma_dependency_by_last_name(ty);
            }
        }
    }
    flags
}

/// A parameter's type is a dependency exactly when it is a path whose last
/// segment is named `Dep`.
pub proof fn lemma_dependency_by_last_name<T>(ty: TypeShape<T>)
    ensures
        is_dependency(ty) <==> (ty matches TypeShape::Path(segs) && segs@.len() > 0 && segs@.last().ident@ == "Dep"@),
{
}

/// Whether a path type is a dependency depends on the names of its
/// segments alone, not on their angle-bracket arguments: two paths with the
/// same segment names are both dependencies or neither.
pub proof fn lemma_dependency_ignores_args<T>(a: Vec<PathSegmentShape<T>>, b: Vec<PathSegmentShape<T>>)
    requires
        a@.len() == b@.len(),
        forall|i: int| 0 <= i < a@.len() ==> (#[trigger] a@[i]).ident@ == b@[i].ident@,
    ensures
        is_dependency(TypeShape::Path(a)) == is_dependency(TypeShape::Path(b)),
{
    if a@.len() > 0 {
        assert(a@[a@.len() - 1].ident@ == b@[b@.len() - 1].ident@);
    }
}

/// A path type whose last segment is not named `Dep` is no dependency,
/// whatever its arguments, and one whose last segment is named `Dep` is
/// one, whatever its arguments.
pub proof fn lemma_dependency_needs_dep_name<T>(segs: Vec<PathSegmentShape<T>>)
    requires
        segs@.len() > 0,
    ensures
        segs@.last().ident@ != "Dep"@ ==> !is_dependency(TypeShape::Path(segs)),
        segs@.last().ident@ == "Dep"@ ==> is_dependency(TypeShape::Path(segs)),
{
}

} // verus!
