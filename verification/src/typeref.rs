//! Translation of type expressions into target-language type references.
//!
//! A type expression is a finite tree of primitives, named classes and enums,
//! and composite nodes (list, map, union, tuple, optional).  Two textual
//! references are derived from the same tree: the *full* reference, which
//! denotes the fully populated value type, and the *partial* reference, which
//! denotes the incrementally decodable counterpart where every scalar leaf
//! becomes optional while the container shape is preserved.

use vstd::prelude::*;
use vstd::string::*;

verus! {

/// The scalar kinds a leaf position can hold.
#[derive(Clone, Copy, PartialEq, Eq, Structural, Debug)]
pub enum PrimitiveKind {
    Int,
    Float,
    Bool,
    Str,
    Null,
}

/// A type expression: the recursive tree the translator walks.
#[derive(Debug)]
pub enum TypeExpr {
    Primitive(PrimitiveKind),
    NamedClass(String),
    NamedEnum(String),
    List(Box<TypeExpr>),
    Dict(Box<TypeExpr>, Box<TypeExpr>),
    Union(Vec<TypeExpr>),
    Tuple(Vec<TypeExpr>),
    Optional(Box<TypeExpr>),
}

/// The mathematical shape of a type expression: the same tree with strings
/// and vectors abstracted to their views.
pub enum TypeModel {
    Primitive(PrimitiveKind),
    NamedClass(Seq<char>),
    NamedEnum(Seq<char>),
    List(Box<TypeModel>),
    Dict(Box<TypeModel>, Box<TypeModel>),
    Union(Seq<TypeModel>),
    Tuple(Seq<TypeModel>),
    Optional(Box<TypeModel>),
}

/// Raised when a union or tuple with no members is encountered: such a node
/// has no valid spelling, so translation fails loudly instead of emitting
/// empty syntax.
#[derive(Clone, Copy, PartialEq, Eq, Structural, Debug)]
pub enum TranslateError {
    EmptyComposite,
}

pub open spec fn model(e: TypeExpr) -> TypeModel
    decreases e,
{
    match e {
        TypeExpr::Primitive(p) => TypeModel::Primitive(p),
        TypeExpr::NamedClass(n) => TypeModel::NamedClass(n@),
        TypeExpr::NamedEnum(n) => TypeModel::NamedEnum(n@),
        TypeExpr::List(inner) => TypeModel::List(Box::new(model(*inner))),
        TypeExpr::Dict(k, v) => TypeModel::Dict(Box::new(model(*k)), Box::new(model(*v))),
        TypeExpr::Union(ms) => TypeModel::Union(models(ms@)),
        TypeExpr::Tuple(ms) => TypeModel::Tuple(models(ms@)),
        TypeExpr::Optional(inner) => TypeModel::Optional(Box::new(model(*inner))),
    }
}

pub open spec fn models(ms: Seq<TypeExpr>) -> Seq<TypeModel>
    decreases ms,
{
    if ms.len() == 0 {
        Seq::empty()
    } else {
        models(ms.drop_last()).push(model(ms.last()))
    }
}

/// A tree is well formed when every union and tuple node has at least one
/// member; this is an upstream invariant, re-stated here so that translation
/// can say exactly when it succeeds.
pub open spec fn wf(t: TypeModel) -> bool
    decreases t,
{
    match t {
        TypeModel::Primitive(_) => true,
        TypeModel::NamedClass(_) => true,
        TypeModel::NamedEnum(_) => true,
        TypeModel::List(inner) => wf(*inner),
        TypeModel::Dict(k, v) => wf(*k) && wf(*v),
        TypeModel::Union(ms) => ms.len() >= 1 && all_wf(ms),
        TypeModel::Tuple(ms) => ms.len() >= 1 && all_wf(ms),
        TypeModel::Optional(inner) => wf(*inner),
    }
}

pub open spec fn all_wf(ms: Seq<TypeModel>) -> bool
    decreases ms,
{
    if ms.len() == 0 {
        true
    } else {
        all_wf(ms.drop_last()) && wf(ms.last())
    }
}

pub open spec fn primitive_spelling(p: PrimitiveKind) -> Seq<char> {
    match p {
        PrimitiveKind::Int => "Int"@,
        PrimitiveKind::Float => "Float"@,
        PrimitiveKind::Bool => "Bool"@,
        PrimitiveKind::Str => "String"@,
        PrimitiveKind::Null => "Null"@,
    }
}

/// A class name is emitted as a quoted, deferred reference, so that classes
/// may refer to one another before declaration order is fixed.
pub open spec fn quoted(n: Seq<char>) -> Seq<char> {
    "\""@ + n + "\""@
}

/// The full reference: the spelling of the fully populated value type.
pub open spec fn full_ref(t: TypeModel) -> Seq<char>
    decreases t,
{
    match t {
        TypeModel::Primitive(p) => primitive_spelling(p),
        TypeModel::NamedClass(n) => quoted(n),
        TypeModel::NamedEnum(n) => n,
        TypeModel::List(inner) => "List<"@ + full_ref(*inner) + ">"@,
        TypeModel::Dict(k, v) => "Map<"@ + full_ref(*k) + ", "@ + full_ref(*v) + ">"@,
        TypeModel::Union(ms) => "Union<"@ + join_full(ms) + ">"@,
        TypeModel::Tuple(ms) => "Tuple<"@ + join_full(ms) + ">"@,
        TypeModel::Optional(inner) => "Optional<"@ + full_ref(*inner) + ">"@,
    }
}

pub open spec fn join_full(ms: Seq<TypeModel>) -> Seq<char>
    decreases ms,
{
    if ms.len() == 0 {
        Seq::empty()
    } else if ms.len() == 1 {
        full_ref(ms.last())
    } else {
        join_full(ms.drop_last()) + ", "@ + full_ref(ms.last())
    }
}

/// The partial reference: every scalar leaf (primitive, enum) becomes
/// optional, a class leaf refers to its partial counterpart under the same
/// deferred name, container nodes keep their shape, and an optional node is
/// flattened into the partial form of its inner type.
pub open spec fn partial_ref(t: TypeModel) -> Seq<char>
    decreases t,
{
    match t {
        TypeModel::Primitive(p) => "Optional<"@ + primitive_spelling(p) + ">"@,
        TypeModel::NamedClass(n) => quoted(n),
        TypeModel::NamedEnum(n) => "Optional<"@ + n + ">"@,
        TypeModel::List(inner) => "List<"@ + partial_ref(*inner) + ">"@,
        TypeModel::Dict(k, v) => "Map<"@ + partial_ref(*k) + ", "@ + partial_ref(*v) + ">"@,
        TypeModel::Union(ms) => "Union<"@ + join_partial(ms) + ">"@,
        TypeModel::Tuple(ms) => "Tuple<"@ + join_partial(ms) + ">"@,
        TypeModel::Optional(inner) => partial_ref(*inner),
    }
}

pub open spec fn join_partial(ms: Seq<TypeModel>) -> Seq<char>
    decreases ms,
{
    if ms.len() == 0 {
        Seq::empty()
    } else if ms.len() == 1 {
        partial_ref(ms.last())
    } else {
        join_partial(ms.drop_last()) + ", "@ + partial_ref(ms.last())
    }
}

proof fn lemma_models_index(ms: Seq<TypeExpr>, i: int)
    requires
        0 <= i < ms.len(),
    ensures
        models(ms).len() == ms.len(),
        models(ms)[i] == model(ms[i]),
    decreases ms,
{
    lemma_models_len(ms);
    if ms.len() > 0 {
        if i < ms.len() - 1 {
            lemma_models_index(ms.drop_last(), i);
            assert(ms.drop_last()[i] == ms[i]);
        }
    }
}

proof fn lemma_models_len(ms: Seq<TypeExpr>)
    ensures
        models(ms).len() == ms.len(),
    decreases ms,
{
    if ms.len() > 0 {
        lemma_models_len(ms.drop_last());
    }
}

proof fn lemma_all_wf_index(ms: Seq<TypeModel>)
    ensures
        all_wf(ms) <==> (forall|i: int| 0 <= i < ms.len() ==> wf(ms[i])),
    decreases ms,
{
    if ms.len() > 0 {
        lemma_all_wf_index(ms.drop_last());
        assert forall|i: int| 0 <= i < ms.len() - 1 implies ms.drop_last()[i] == ms[i] by {}
        assert(ms.last() == ms[ms.len() - 1]);
    }
}

/// Returns the language-native spelling of a scalar kind.
pub fn primitive_name(p: &PrimitiveKind) -> (r: &'static str)
    ensures
        r@ == primitive_spelling(*p),
{
    match p {
        PrimitiveKind::Int => "Int",
        PrimitiveKind::Float => "Float",
        PrimitiveKind::Bool => "Bool",
        PrimitiveKind::Str => "String",
        PrimitiveKind::Null => "Null",
    }
}

/// Translates a type expression into its full reference.  Succeeds exactly on
/// well-formed trees; an empty union or tuple anywhere in the tree fails the
/// whole translation.
pub fn to_full(e: &TypeExpr) -> (r: Result<String, TranslateError>)
    ensures
        r is Ok <==> wf(model(*e)),
        r is Ok ==> r->Ok_0@ == full_ref(model(*e)),
        r is Err ==> r->Err_0 == TranslateError::EmptyComposite,
    decreases *e, 1int,
{
    match e {
        TypeExpr::Primitive(p) => Ok(primitive_name(p).to_owned()),
        TypeExpr::NamedClass(n) => {
            let mut acc = "\"".to_owned();
            acc.append(n.as_str());
            acc.append("\"");
            Ok(acc)
        },
        TypeExpr::NamedEnum(n) => Ok(n.as_str().to_owned()),
        TypeExpr::List(inner) => {
            let s = to_full(inner)?;
            let mut acc = "List<".to_owned();
            acc.append(s.as_str());
            acc.append(">");
            Ok(acc)
        },
        TypeExpr::Dict(k, v) => {
            let ks = to_full(k)?;
            let vs = to_full(v)?;
            let mut acc = "Map<".to_owned();
            acc.append(ks.as_str());
            acc.append(", ");
            acc.append(vs.as_str());
            acc.append(">");
            Ok(acc)
        },
        TypeExpr::Union(ms) => {
            proof {
                lemma_models_len(ms@);
            }
            let joined = join_members_full(ms, Ghost(*e))?;
            let mut acc = "Union<".to_owned();
            acc.append(joined.as_str());
            acc.append(">");
            Ok(acc)
        },
        TypeExpr::Tuple(ms) => {
            proof {
                lemma_models_len(ms@);
            }
            let joined = join_members_full(ms, Ghost(*e))?;
            let mut acc = "Tuple<".to_owned();
            acc.append(joined.as_str());
            acc.append(">");
            Ok(acc)
        },
        TypeExpr::Optional(inner) => {
            let s = to_full(inner)?;
            let mut acc = "Optional<".to_owned();
            acc.append(s.as_str());
            acc.append(">");
            Ok(acc)
        },
    }
}

/// Joins the full references of composite members with a comma separator.
fn join_members_full(ms: &Vec<TypeExpr>, parent: Ghost<TypeExpr>) -> (r: Result<
    String,
    TranslateError,
>)
    requires
        decreases_to!(parent@ => *ms),
    ensures
        r is Ok <==> ms@.len() >= 1 && all_wf(models(ms@)),
        r is Ok ==> r->Ok_0@ == join_full(models(ms@)),
        r is Err ==> r->Err_0 == TranslateError::EmptyComposite,
    decreases parent@, 0int,
{
    if ms.len() == 0 {
        proof {
            lemma_all_wf_index(models(ms@));
        }
        return Err(TranslateError::EmptyComposite);
    }
    let mut acc = String::new();
    let mut i: usize = 0;
    while i < ms.len()
        invariant
            0 < ms@.len(),
            i <= ms@.len(),
            decreases_to!(parent@ => *ms),
            forall|j: int| 0 <= j < i ==> wf(model(ms@[j])),
            acc@ == join_full(models(ms@.subrange(0, i as int))),
        decreases ms@.len() - i,
    {
        proof {
            assert(decreases_to!(*ms => ms@[i as int]));
        }
        let member = match to_full(&ms[i]) {
            Ok(s) => s,
            Err(err) => {
                proof {
                    lemma_models_index(ms@, i as int);
                    lemma_all_wf_index(models(ms@));
                }
                return Err(err);
            },
        };
        if i > 0 {
            acc.append(", ");
        }
        acc.append(member.as_str());
        proof {
            let prefix = ms@.subrange(0, i as int);
            let longer = ms@.subrange(0, i as int + 1);
            assert(longer.drop_last() =~= prefix);
            assert(longer.last() == ms@[i as int]);
            lemma_models_len(longer);
            lemma_models_len(prefix);
            lemma_models_index(longer, i as int);
            assert(models(longer).drop_last() =~= models(prefix));
            assert(acc@ =~= join_full(models(longer)));
        }
        i += 1;
    }
    proof {
        assert(ms@.subrange(0, ms@.len() as int) =~= ms@);
        lemma_models_len(ms@);
        lemma_all_wf_index(models(ms@));
        assert forall|j: int| 0 <= j < models(ms@).len() implies wf(models(ms@)[j]) by {
            lemma_models_index(ms@, j);
        }
    }
    Ok(acc)
}

/// Translates a type expression into its partial reference.  Succeeds exactly
/// on well-formed trees, like [`to_full`].
pub fn to_partial(e: &TypeExpr) -> (r: Result<String, TranslateError>)
    ensures
        r is Ok <==> wf(model(*e)),
        r is Ok ==> r->Ok_0@ == partial_ref(model(*e)),
        r is Err ==> r->Err_0 == TranslateError::EmptyComposite,
    decreases *e, 1int,
{
    match e {
        TypeExpr::Primitive(p) => {
            let mut acc = "Optional<".to_owned();
            acc.append(primitive_name(p));
            acc.append(">");
            Ok(acc)
        },
        TypeExpr::NamedClass(n) => {
            let mut acc = "\"".to_owned();
            acc.append(n.as_str());
            acc.append("\"");
            Ok(acc)
        },
        TypeExpr::NamedEnum(n) => {
            let mut acc = "Optional<".to_owned();
            acc.append(n.as_str());
            acc.append(">");
            Ok(acc)
        },
        TypeExpr::List(inner) => {
            let s = to_partial(inner)?;
            let mut acc = "List<".to_owned();
            acc.append(s.as_str());
            acc.append(">");
            Ok(acc)
        },
        TypeExpr::Dict(k, v) => {
            let ks = to_partial(k)?;
            let vs = to_partial(v)?;
            let mut acc = "Map<".to_owned();
            acc.append(ks.as_str());
            acc.append(", ");
            acc.append(vs.as_str());
            acc.append(">");
            Ok(acc)
        },
        TypeExpr::Union(ms) => {
            proof {
                lemma_models_len(ms@);
            }
            let joined = join_members_partial(ms, Ghost(*e))?;
            let mut acc = "Union<".to_owned();
            acc.append(joined.as_str());
            acc.append(">");
            Ok(acc)
        },
        TypeExpr::Tuple(ms) => {
            proof {
                lemma_models_len(ms@);
            }
            let joined = join_members_partial(ms, Ghost(*e))?;
            let mut acc = "Tuple<".to_owned();
            acc.append(joined.as_str());
            acc.append(">");
            Ok(acc)
        },
        TypeExpr::Optional(inner) => to_partial(inner),
    }
}

/// Joins the partial references of composite members with a comma separator.
fn join_members_partial(ms: &Vec<TypeExpr>, parent: Ghost<TypeExpr>) -> (r: Result<
    String,
    TranslateError,
>)
    requires
        decreases_to!(parent@ => *ms),
    ensures
        r is Ok <==> ms@.len() >= 1 && all_wf(models(ms@)),
        r is Ok ==> r->Ok_0@ == join_partial(models(ms@)),
        r is Err ==> r->Err_0 == TranslateError::EmptyComposite,
    decreases parent@, 0int,
{
    if ms.len() == 0 {
        proof {
            lemma_all_wf_index(models(ms@));
        }
        return Err(TranslateError::EmptyComposite);
    }
    let mut acc = String::new();
    let mut i: usize = 0;
    while i < ms.len()
        invariant
            0 < ms@.len(),
            i <= ms@.len(),
            decreases_to!(parent@ => *ms),
            forall|j: int| 0 <= j < i ==> wf(model(ms@[j])),
            acc@ == join_partial(models(ms@.subrange(0, i as int))),
        decreases ms@.len() - i,
    {
        proof {
            assert(decreases_to!(*ms => ms@[i as int]));
        }
        let member = match to_partial(&ms[i]) {
            Ok(s) => s,
            Err(err) => {
                proof {
                    lemma_models_index(ms@, i as int);
                    lemma_all_wf_index(models(ms@));
                }
                return Err(err);
            },
        };
        if i > 0 {
            acc.append(", ");
        }
        acc.append(member.as_str());
        proof {
            let prefix = ms@.subrange(0, i as int);
            let longer = ms@.subrange(0, i as int + 1);
            assert(longer.drop_last() =~= prefix);
            assert(longer.last() == ms@[i as int]);
            lemma_models_len(longer);
            lemma_models_len(prefix);
            lemma_models_index(longer, i as int);
            assert(models(longer).drop_last() =~= models(prefix));
            assert(acc@ =~= join_partial(models(longer)));
        }
        i += 1;
    }
    proof {
        assert(ms@.subrange(0, ms@.len() as int) =~= ms@);
        lemma_models_len(ms@);
        lemma_all_wf_index(models(ms@));
        assert forall|j: int| 0 <= j < models(ms@).len() implies wf(models(ms@)[j]) by {
            lemma_models_index(ms@, j);
        }
    }
    Ok(acc)
}

/// True when the tree holds no optional node and no enum leaf.
pub open spec fn opt_enum_free(t: TypeModel) -> bool
    decreases t,
{
    match t {
        TypeModel::Primitive(_) => true,
        TypeModel::NamedClass(_) => true,
        TypeModel::NamedEnum(_) => false,
        TypeModel::List(inner) => opt_enum_free(*inner),
        TypeModel::Dict(k, v) => opt_enum_free(*k) && opt_enum_free(*v),
        TypeModel::Union(ms) => all_opt_enum_free(ms),
        TypeModel::Tuple(ms) => all_opt_enum_free(ms),
        TypeModel::Optional(_) => false,
    }
}

pub open spec fn all_opt_enum_free(ms: Seq<TypeModel>) -> bool
    decreases ms,
{
    if ms.len() == 0 {
        true
    } else {
        all_opt_enum_free(ms.drop_last()) && opt_enum_free(ms.last())
    }
}

/// The leaf-wrapping transform: scalar leaves (primitives, enums) are wrapped
/// in an optional node, class leaves are kept, container nodes keep their
/// shape, and optional nodes are flattened away.  On a tree without optional
/// or enum leaves it changes scalar leaf positions only.
pub open spec fn leaf_wrapped(t: TypeModel) -> TypeModel
    decreases t,
{
    match t {
        TypeModel::Primitive(p) => TypeModel::Optional(Box::new(TypeModel::Primitive(p))),
        TypeModel::NamedClass(n) => TypeModel::NamedClass(n),
        TypeModel::NamedEnum(n) => TypeModel::Optional(Box::new(TypeModel::NamedEnum(n))),
        TypeModel::List(inner) => TypeModel::List(Box::new(leaf_wrapped(*inner))),
        TypeModel::Dict(k, v) => TypeModel::Dict(
            Box::new(leaf_wrapped(*k)),
            Box::new(leaf_wrapped(*v)),
        ),
        TypeModel::Union(ms) => TypeModel::Union(leaf_wrapped_all(ms)),
        TypeModel::Tuple(ms) => TypeModel::Tuple(leaf_wrapped_all(ms)),
        TypeModel::Optional(inner) => leaf_wrapped(*inner),
    }
}

pub open spec fn leaf_wrapped_all(ms: Seq<TypeModel>) -> Seq<TypeModel>
    decreases ms,
{
    if ms.len() == 0 {
        Seq::empty()
    } else {
        leaf_wrapped_all(ms.drop_last()).push(leaf_wrapped(ms.last()))
    }
}

proof fn lemma_leaf_wrapped_all_len(ms: Seq<TypeModel>)
    ensures
        leaf_wrapped_all(ms).len() == ms.len(),
    decreases ms,
{
    if ms.len() > 0 {
        lemma_leaf_wrapped_all_len(ms.drop_last());
    }
}

/// The partial reference of any tree is the full reference of the same tree
/// with its scalar leaves wrapped in optionals and its optional nodes
/// flattened away.
pub proof fn lemma_partial_is_full_of_leaf_wrapped(t: TypeModel)
    ensures
        partial_ref(t) == full_ref(leaf_wrapped(t)),
    decreases t,
{
    match t {
        TypeModel::Primitive(p) => {
            assert(full_ref(TypeModel::Primitive(p)) == primitive_spelling(p));
            assert(full_ref(leaf_wrapped(t)) == "Optional<"@ + primitive_spelling(p) + ">"@);
        },
        TypeModel::NamedClass(n) => {
            assert(full_ref(leaf_wrapped(t)) == quoted(n));
        },
        TypeModel::NamedEnum(n) => {
            assert(full_ref(TypeModel::NamedEnum(n)) == n);
            assert(full_ref(leaf_wrapped(t)) == "Optional<"@ + n + ">"@);
        },
        TypeModel::List(inner) => {
            lemma_partial_is_full_of_leaf_wrapped(*inner);
            assert(full_ref(leaf_wrapped(t)) == "List<"@ + full_ref(leaf_wrapped(*inner))
                + ">"@);
        },
        TypeModel::Dict(k, v) => {
            lemma_partial_is_full_of_leaf_wrapped(*k);
            lemma_partial_is_full_of_leaf_wrapped(*v);
            assert(full_ref(leaf_wrapped(t)) == "Map<"@ + full_ref(leaf_wrapped(*k)) + ", "@
                + full_ref(leaf_wrapped(*v)) + ">"@);
        },
        TypeModel::Union(ms) => {
            lemma_join_partial_is_join_full_wrapped(ms);
            assert(full_ref(leaf_wrapped(t)) == "Union<"@ + join_full(leaf_wrapped_all(ms))
                + ">"@);
        },
        TypeModel::Tuple(ms) => {
            lemma_join_partial_is_join_full_wrapped(ms);
            assert(full_ref(leaf_wrapped(t)) == "Tuple<"@ + join_full(leaf_wrapped_all(ms))
                + ">"@);
        },
        TypeModel::Optional(inner) => {
            lemma_partial_is_full_of_leaf_wrapped(*inner);
        },
    }
}

proof fn lemma_join_partial_is_join_full_wrapped(ms: Seq<TypeModel>)
    ensures
        join_partial(ms) == join_full(leaf_wrapped_all(ms)),
    decreases ms,
{
    lemma_leaf_wrapped_all_len(ms);
    if ms.len() >= 1 {
        let lw = leaf_wrapped_all(ms);
        lemma_leaf_wrapped_all_len(ms.drop_last());
        lemma_partial_is_full_of_leaf_wrapped(ms.last());
        assert(lw == leaf_wrapped_all(ms.drop_last()).push(leaf_wrapped(ms.last())));
        assert(lw.last() == leaf_wrapped(ms.last()));
        assert(lw.drop_last() =~= leaf_wrapped_all(ms.drop_last()));
        if ms.len() > 1 {
            lemma_join_partial_is_join_full_wrapped(ms.drop_last());
            assert(join_full(lw) == join_full(lw.drop_last()) + ", "@ + full_ref(lw.last()));
        } else {
            assert(join_full(lw) == full_ref(lw.last()));
        }
    }
}

/// On a tree without optional nodes and without enum leaves, the full and the
/// partial reference differ only at scalar leaf positions: the partial form
/// equals the full form of the tree with each primitive leaf wrapped in an
/// optional, the container structure being untouched.
pub proof fn lemma_partial_wraps_scalar_leaves_only(t: TypeModel)
    requires
        opt_enum_free(t),
    ensures
        partial_ref(t) == full_ref(leaf_wrapped(t)),
{
    lemma_partial_is_full_of_leaf_wrapped(t);
}

/// The partial form of an optional type is the partial form of its inner
/// type: optionality is flattened, never doubled.
pub proof fn lemma_partial_flattens_optional(t: TypeModel)
    ensures
        partial_ref(TypeModel::Optional(Box::new(t))) == partial_ref(t),
        wf(TypeModel::Optional(Box::new(t))) == wf(t),
{
}

/// The partial form of a primitive is syntactically its full form wrapped in
/// an optional.
pub proof fn lemma_partial_primitive_wraps_full(p: PrimitiveKind)
    ensures
        partial_ref(TypeModel::Primitive(p)) == "Optional<"@ + full_ref(
            TypeModel::Primitive(p),
        ) + ">"@,
{
}

} // verus!
