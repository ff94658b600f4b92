use typegen::typeref::PrimitiveKind;
use typegen::typeref::TranslateError;
use typegen::typeref::TypeExpr;
use typegen::typeref::to_full;
use typegen::typeref::to_partial;

fn prim(p: PrimitiveKind) -> TypeExpr {
    TypeExpr::Primitive(p)
}

#[test]
fn primitive_spellings() {
    assert_eq!(to_full(&prim(PrimitiveKind::Int)).unwrap(), "Int");
    assert_eq!(to_full(&prim(PrimitiveKind::Float)).unwrap(), "Float");
    assert_eq!(to_full(&prim(PrimitiveKind::Bool)).unwrap(), "Bool");
    assert_eq!(to_full(&prim(PrimitiveKind::Str)).unwrap(), "String");
    assert_eq!(to_full(&prim(PrimitiveKind::Null)).unwrap(), "Null");
}

#[test]
fn partial_primitive_wraps_full() {
    let kinds = [
        PrimitiveKind::Int,
        PrimitiveKind::Float,
        PrimitiveKind::Bool,
        PrimitiveKind::Str,
        PrimitiveKind::Null,
    ];
    for k in kinds {
        let full = to_full(&prim(k)).unwrap();
        let partial = to_partial(&prim(k)).unwrap();
        assert_eq!(partial, format!("Optional<{}>", full));
    }
}

#[test]
fn named_class_is_quoted_in_both_modes() {
    let e = TypeExpr::NamedClass(String::from("Person"));
    assert_eq!(to_full(&e).unwrap(), "\"Person\"");
    assert_eq!(to_partial(&e).unwrap(), "\"Person\"");
}

#[test]
fn named_enum_degrades_to_optional_in_partial() {
    let e = TypeExpr::NamedEnum(String::from("Color"));
    assert_eq!(to_full(&e).unwrap(), "Color");
    assert_eq!(to_partial(&e).unwrap(), "Optional<Color>");
}

#[test]
fn optional_list_of_int_scenario() {
    let e = TypeExpr::Optional(Box::new(TypeExpr::List(Box::new(prim(PrimitiveKind::Int)))));
    assert_eq!(to_full(&e).unwrap(), "Optional<List<Int>>");
    assert_eq!(to_partial(&e).unwrap(), "List<Optional<Int>>");
}

#[test]
fn union_of_class_and_enum_keeps_member_order() {
    let e = TypeExpr::Union(vec![
        TypeExpr::NamedClass(String::from("A")),
        TypeExpr::NamedEnum(String::from("B")),
    ]);
    assert_eq!(to_full(&e).unwrap(), "Union<\"A\", B>");
    assert_eq!(to_partial(&e).unwrap(), "Union<\"A\", Optional<B>>");
}

#[test]
fn map_recurses_on_both_sides() {
    let e = TypeExpr::Dict(
        Box::new(prim(PrimitiveKind::Str)),
        Box::new(TypeExpr::List(Box::new(prim(PrimitiveKind::Bool)))),
    );
    assert_eq!(to_full(&e).unwrap(), "Map<String, List<Bool>>");
    assert_eq!(to_partial(&e).unwrap(), "Map<Optional<String>, List<Optional<Bool>>>");
}

#[test]
fn tuple_keeps_order_and_wraps_only_leaves() {
    let e = TypeExpr::Tuple(vec![
        prim(PrimitiveKind::Bool),
        TypeExpr::List(Box::new(TypeExpr::NamedClass(String::from("C")))),
    ]);
    assert_eq!(to_full(&e).unwrap(), "Tuple<Bool, List<\"C\">>");
    assert_eq!(to_partial(&e).unwrap(), "Tuple<Optional<Bool>, List<\"C\">>");
}

#[test]
fn partial_flattens_nested_optionals() {
    let inner = TypeExpr::Optional(Box::new(prim(PrimitiveKind::Int)));
    let outer = TypeExpr::Optional(Box::new(inner));
    assert_eq!(to_partial(&outer).unwrap(), "Optional<Int>");
    let plain = TypeExpr::Optional(Box::new(prim(PrimitiveKind::Int)));
    assert_eq!(
        to_partial(&outer).unwrap(),
        to_partial(&TypeExpr::Optional(Box::new(plain))).unwrap()
    );
}

#[test]
fn empty_union_fails_loudly() {
    let e = TypeExpr::Union(vec![]);
    assert_eq!(to_full(&e).unwrap_err(), TranslateError::EmptyComposite);
    assert_eq!(to_partial(&e).unwrap_err(), TranslateError::EmptyComposite);
}

#[test]
fn empty_tuple_fails_loudly() {
    let e = TypeExpr::Tuple(vec![]);
    assert_eq!(to_full(&e).unwrap_err(), TranslateError::EmptyComposite);
    assert_eq!(to_partial(&e).unwrap_err(), TranslateError::EmptyComposite);
}

#[test]
fn nested_empty_composite_fails_whole_translation() {
    let e = TypeExpr::List(Box::new(TypeExpr::Optional(Box::new(TypeExpr::Union(vec![])))));
    assert_eq!(to_full(&e).unwrap_err(), TranslateError::EmptyComposite);
    assert_eq!(to_partial(&e).unwrap_err(), TranslateError::EmptyComposite);
}

#[test]
fn single_member_union_has_no_separator() {
    let e = TypeExpr::Union(vec![prim(PrimitiveKind::Int)]);
    assert_eq!(to_full(&e).unwrap(), "Union<Int>");
    assert_eq!(to_partial(&e).unwrap(), "Union<Optional<Int>>");
}
