//! The entities of the intermediate representation that the output stage
//! reads, and the typed template models derived from them.
//!
//! Entities arrive already validated; building a model is a pure mapping:
//! names and declaration order are preserved, and each field type is spelled
//! out by the translator, in full form for the plain model and in partial
//! form for the streaming model.

use vstd::prelude::*;
use vstd::string::*;
use crate::typeref::TypeExpr;
use crate::typeref::TranslateError;
use crate::typeref::to_full;
use crate::typeref::to_partial;
use crate::typeref::model;
use crate::typeref::wf;
use crate::typeref::full_ref;
use crate::typeref::partial_ref;

verus! {

/// An enum entity: its name and its ordered value names.
#[derive(Debug)]
pub struct EnumDef {
    pub name: String,
    pub values: Vec<String>,
}

/// A class entity: its name and its ordered fields, each with its type.
#[derive(Debug)]
pub struct ClassDef {
    pub name: String,
    pub fields: Vec<(String, TypeExpr)>,
}

/// The model an enum template renders: the name and value names, copied in
/// declaration order.
#[derive(Debug)]
pub struct EnumModel {
    pub name: String,
    pub values: Vec<String>,
}

/// The model a class template renders: the class name and, per field, the
/// field name and its spelled type reference.
#[derive(Debug)]
pub struct ClassModel {
    pub name: String,
    pub fields: Vec<(String, String)>,
}

/// The model of a whole type declaration file: every enum and every class.
#[derive(Debug)]
pub struct TypesModel {
    pub enums: Vec<EnumModel>,
    pub classes: Vec<ClassModel>,
}

/// Every field type of the class is well formed.
pub open spec fn class_wf(c: ClassDef) -> bool {
    forall|i: int| 0 <= i < c.fields@.len() ==> wf(model(#[trigger] c.fields@[i].1))
}

/// The enum model copies name and values in order.
pub open spec fn enum_matches(e: EnumDef, m: EnumModel) -> bool {
    m.name@ == e.name@ && m.values@.len() == e.values@.len() && (forall|i: int|
        0 <= i < e.values@.len() ==> (#[trigger] m.values@[i])@ == e.values@[i]@)
}

/// The class model keeps name and field order, each field spelled as its
/// full reference.
pub open spec fn full_class_matches(c: ClassDef, m: ClassModel) -> bool {
    m.name@ == c.name@ && m.fields@.len() == c.fields@.len() && (forall|i: int|
        0 <= i < c.fields@.len() ==> (#[trigger] m.fields@[i]).0@ == c.fields@[i].0@
            && m.fields@[i].1@ == full_ref(model(c.fields@[i].1)))
}

/// The class model keeps name and field order, each field spelled as its
/// partial reference.
pub open spec fn partial_class_matches(c: ClassDef, m: ClassModel) -> bool {
    m.name@ == c.name@ && m.fields@.len() == c.fields@.len() && (forall|i: int|
        0 <= i < c.fields@.len() ==> (#[trigger] m.fields@[i]).0@ == c.fields@[i].0@
            && m.fields@[i].1@ == partial_ref(model(c.fields@[i].1)))
}

/// Builds the enum template model: a plain copy, order preserved.
pub fn enum_model(e: &EnumDef) -> (r: EnumModel)
    ensures
        enum_matches(*e, r),
{
    let mut values: Vec<String> = Vec::new();
    let mut i: usize = 0;
    while i < e.values.len()
        invariant
            i <= e.values@.len(),
            values@.len() == i,
            forall|j: int| 0 <= j < i ==> (#[trigger] values@[j])@ == e.values@[j]@,
        decreases e.values@.len() - i,
    {
        values.push(e.values[i].clone());
        i = i + 1;
    }
    EnumModel { name: e.name.clone(), values }
}

/// Builds the plain class model, spelling every field type in full form.
/// Fails exactly when some field type holds an empty union or tuple.
pub fn class_model(c: &ClassDef) -> (r: Result<ClassModel, TranslateError>)
    ensures
        r is Ok <==> class_wf(*c),
        r is Ok ==> full_class_matches(*c, r->Ok_0),
        r is Err ==> r->Err_0 == TranslateError::EmptyComposite,
{
    let mut fields: Vec<(String, String)> = Vec::new();
    let mut i: usize = 0;
    while i < c.fields.len()
        invariant
            i <= c.fields@.len(),
            fields@.len() == i,
            forall|j: int| 0 <= j < i ==> wf(model(#[trigger] c.fields@[j].1)),
            forall|j: int|
                0 <= j < i ==> (#[trigger] fields@[j]).0@ == c.fields@[j].0@ && fields@[j].1@
                    == full_ref(model(c.fields@[j].1)),
        decreases c.fields@.len() - i,
    {
        let spelled = match to_full(&c.fields[i].1) {
            Ok(s) => s,
            Err(err) => {
                return Err(err);
            },
        };
        fields.push((c.fields[i].0.clone(), spelled));
        i = i + 1;
    }
    Ok(ClassModel { name: c.name.clone(), fields })
}

/// Builds the streaming class model, spelling every field type in partial
/// form.  Fails exactly when some field type holds an empty union or tuple.
pub fn partial_class_model(c: &ClassDef) -> (r: Result<ClassModel, TranslateError>)
    ensures
        r is Ok <==> class_wf(*c),
        r is Ok ==> partial_class_matches(*c, r->Ok_0),
        r is Err ==> r->Err_0 == TranslateError::EmptyComposite,
{
    let mut fields: Vec<(String, String)> = Vec::new();
    let mut i: usize = 0;
    while i < c.fields.len()
        invariant
            i <= c.fields@.len(),
            fields@.len() == i,
            forall|j: int| 0 <= j < i ==> wf(model(#[trigger] c.fields@[j].1)),
            forall|j: int|
                0 <= j < i ==> (#[trigger] fields@[j]).0@ == c.fields@[j].0@ && fields@[j].1@
                    == partial_ref(model(c.fields@[j].1)),
        decreases c.fields@.len() - i,
    {
        let spelled = match to_partial(&c.fields[i].1) {
            Ok(s) => s,
            Err(err) => {
                return Err(err);
            },
        };
        fields.push((c.fields[i].0.clone(), spelled));
        i = i + 1;
    }
    Ok(ClassModel { name: c.name.clone(), fields })
}

/// Builds the model of the whole type declaration file: every enum copied,
/// every class spelled in full form, order preserved.  Fails exactly when
/// some class has a field type holding an empty union or tuple.
pub fn types_model(enums: &Vec<EnumDef>, classes: &Vec<ClassDef>) -> (r: Result<
    TypesModel,
    TranslateError,
>)
    ensures
        r is Ok <==> (forall|i: int| 0 <= i < classes@.len() ==> class_wf(#[trigger] classes@[i])),
        r is Ok ==> (r->Ok_0).enums@.len() == enums@.len() && (forall|i: int|
            0 <= i < enums@.len() ==> enum_matches(#[trigger] enums@[i], (r->Ok_0).enums@[i])),
        r is Ok ==> (r->Ok_0).classes@.len() == classes@.len() && (forall|i: int|
            0 <= i < classes@.len() ==> full_class_matches(
                #[trigger] classes@[i],
                (r->Ok_0).classes@[i],
            )),
        r is Err ==> r->Err_0 == TranslateError::EmptyComposite,
{
    let mut enum_models: Vec<EnumModel> = Vec::new();
    let mut i: usize = 0;
    while i < enums.len()
        invariant
            i <= enums@.len(),
            enum_models@.len() == i,
            forall|j: int|
                0 <= j < i ==> enum_matches(#[trigger] enums@[j], enum_models@[j]),
        decreases enums@.len() - i,
    {
        enum_models.push(enum_model(&enums[i]));
        i = i + 1;
    }
    let mut class_models: Vec<ClassModel> = Vec::new();
    let mut k: usize = 0;
    while k < classes.len()
        invariant
            k <= classes@.len(),
            class_models@.len() == k,
            forall|j: int| 0 <= j < k ==> class_wf(#[trigger] classes@[j]),
            forall|j: int|
                0 <= j < k ==> full_class_matches(#[trigger] classes@[j], class_models@[j]),
        decreases classes@.len() - k,
    {
        let m = match class_model(&classes[k]) {
            Ok(m) => m,
            Err(err) => {
                return Err(err);
            },
        };
        class_models.push(m);
        k = k + 1;
    }
    Ok(TypesModel { enums: enum_models, classes: class_models })
}

/// Builds the streaming counterpart of the type declaration file: every
/// class spelled in partial form, order preserved.  Fails exactly when some
/// class has a field type holding an empty union or tuple.
pub fn stream_types_model(classes: &Vec<ClassDef>) -> (r: Result<Vec<ClassModel>, TranslateError>)
    ensures
        r is Ok <==> (forall|i: int| 0 <= i < classes@.len() ==> class_wf(#[trigger] classes@[i])),
        r is Ok ==> (r->Ok_0)@.len() == classes@.len() && (forall|i: int|
            0 <= i < classes@.len() ==> partial_class_matches(
                #[trigger] classes@[i],
                (r->Ok_0)@[i],
            )),
        r is Err ==> r->Err_0 == TranslateError::EmptyComposite,
{
    let mut class_models: Vec<ClassModel> = Vec::new();
    let mut k: usize = 0;
    while k < classes.len()
        invariant
            k <= classes@.len(),
            class_models@.len() == k,
            forall|j: int| 0 <= j < k ==> class_wf(#[trigger] classes@[j]),
            forall|j: int|
                0 <= j < k ==> partial_class_matches(#[trigger] classes@[j], class_models@[j]),
        decreases classes@.len() - k,
    {
        let m = match partial_class_model(&classes[k]) {
            Ok(m) => m,
            Err(err) => {
                return Err(err);
            },
        };
        class_models.push(m);
        k = k + 1;
    }
    Ok(class_models)
}

} // verus!
