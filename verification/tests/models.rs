use typegen::entities::ClassDef;
use typegen::entities::EnumDef;
use typegen::entities::class_model;
use typegen::entities::enum_model;
use typegen::entities::partial_class_model;
use typegen::entities::stream_types_model;
use typegen::entities::types_model;
use typegen::typeref::PrimitiveKind;
use typegen::typeref::TranslateError;
use typegen::typeref::TypeExpr;

fn person() -> ClassDef {
    ClassDef {
        name: String::from("Person"),
        fields: vec![
            (String::from("name"), TypeExpr::Primitive(PrimitiveKind::Str)),
            (
                String::from("pets"),
                TypeExpr::List(Box::new(TypeExpr::NamedClass(String::from("Pet")))),
            ),
            (
                String::from("mood"),
                TypeExpr::Optional(Box::new(TypeExpr::NamedEnum(String::from("Mood")))),
            ),
        ],
    }
}

#[test]
fn enum_model_copies_values_in_order() {
    let e = EnumDef {
        name: String::from("Mood"),
        values: vec![String::from("Happy"), String::from("Sad")],
    };
    let m = enum_model(&e);
    assert_eq!(m.name, "Mood");
    assert_eq!(m.values, vec!["Happy", "Sad"]);
}

#[test]
fn class_model_spells_full_references() {
    let m = class_model(&person()).unwrap();
    assert_eq!(m.name, "Person");
    assert_eq!(m.fields.len(), 3);
    assert_eq!(m.fields[0], (String::from("name"), String::from("String")));
    assert_eq!(m.fields[1], (String::from("pets"), String::from("List<\"Pet\">")));
    assert_eq!(m.fields[2], (String::from("mood"), String::from("Optional<Mood>")));
}

#[test]
fn partial_class_model_spells_partial_references() {
    let m = partial_class_model(&person()).unwrap();
    assert_eq!(m.name, "Person");
    assert_eq!(m.fields[0], (String::from("name"), String::from("Optional<String>")));
    assert_eq!(m.fields[1], (String::from("pets"), String::from("List<\"Pet\">")));
    assert_eq!(m.fields[2], (String::from("mood"), String::from("Optional<Mood>")));
}

#[test]
fn class_model_propagates_translation_failure() {
    let broken = ClassDef {
        name: String::from("Broken"),
        fields: vec![(String::from("bad"), TypeExpr::Union(vec![]))],
    };
    assert_eq!(class_model(&broken).unwrap_err(), TranslateError::EmptyComposite);
    assert_eq!(partial_class_model(&broken).unwrap_err(), TranslateError::EmptyComposite);
}

#[test]
fn types_model_collects_enums_and_classes() {
    let enums = vec![EnumDef { name: String::from("Mood"), values: vec![String::from("Happy")] }];
    let classes = vec![person()];
    let m = types_model(&enums, &classes).unwrap();
    assert_eq!(m.enums.len(), 1);
    assert_eq!(m.enums[0].name, "Mood");
    assert_eq!(m.classes.len(), 1);
    assert_eq!(m.classes[0].fields[0].1, "String");
}

#[test]
fn stream_types_model_uses_partial_spellings() {
    let classes = vec![person()];
    let ms = stream_types_model(&classes).unwrap();
    assert_eq!(ms.len(), 1);
    assert_eq!(ms[0].fields[0].1, "Optional<String>");
}

#[test]
fn types_model_fails_on_any_broken_class() {
    let enums: Vec<EnumDef> = Vec::new();
    let classes = vec![
        person(),
        ClassDef {
            name: String::from("Broken"),
            fields: vec![(String::from("bad"), TypeExpr::Tuple(vec![]))],
        },
    ];
    assert_eq!(types_model(&enums, &classes).unwrap_err(), TranslateError::EmptyComposite);
    assert_eq!(stream_types_model(&classes).unwrap_err(), TranslateError::EmptyComposite);
}
