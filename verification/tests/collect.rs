use typegen::collector::CollectError;
use typegen::collector::FileCollector;
use typegen::collector::FileMap;
use typegen::collector::LanguageProfile;
use typegen::collector::TemplateOutcome;
use typegen::collector::generation_marker;
use typegen::collector::is_generated;
use typegen::collector::str_eq;
use typegen::collector::str_lt;

const HEADER: &str = "# generated by typegen - do not edit";

fn entries(m: &FileMap) -> Vec<(String, String)> {
    let mut out = Vec::new();
    let n = m.len();
    let mut i = 0;
    while i < n {
        let e = m.entry_at(i);
        out.push((e.0.clone(), e.1.clone()));
        i += 1;
    }
    out
}

#[test]
fn marker_text_is_fixed() {
    assert_eq!(generation_marker(), "generated by typegen");
    assert!(HEADER.contains(generation_marker()));
}

#[test]
fn string_order_helpers() {
    assert!(str_lt("a.py", "b.py"));
    assert!(!str_lt("b.py", "a.py"));
    assert!(str_lt("a", "a.py"));
    assert!(!str_lt("same", "same"));
    assert!(str_eq("same", "same"));
    assert!(!str_eq("same", "Same"));
}

#[test]
fn add_file_prepends_header_and_sorts() {
    let mut fc = FileCollector::new(LanguageProfile::new(HEADER));
    fc.add_file("b.py", "beta");
    fc.add_file("a.py", "alpha");
    let files = entries(fc.snapshot());
    assert_eq!(files.len(), 2);
    assert_eq!(files[0].0, "a.py");
    assert_eq!(files[0].1, format!("{}\nalpha", HEADER));
    assert_eq!(files[1].0, "b.py");
    assert_eq!(files[1].1, format!("{}\nbeta", HEADER));
}

#[test]
fn add_file_same_path_last_write_wins() {
    let mut fc = FileCollector::new(LanguageProfile::new(HEADER));
    fc.add_file("a.py", "first");
    fc.add_file("a.py", "second");
    let files = entries(fc.snapshot());
    assert_eq!(files.len(), 1);
    assert_eq!(files[0].1, format!("{}\nsecond", HEADER));
}

#[test]
fn add_rendered_success_stores_with_header() {
    let mut fc = FileCollector::new(LanguageProfile::new(HEADER));
    let r = fc.add_rendered("types.py", TemplateOutcome::Rendered(String::from("class X: pass")));
    assert!(r.is_ok());
    let files = entries(fc.snapshot());
    assert_eq!(files.len(), 1);
    assert_eq!(files[0].0, "types.py");
    assert_eq!(files[0].1, format!("{}\nclass X: pass", HEADER));
}

#[test]
fn add_rendered_conversion_failure_tags_path() {
    let mut fc = FileCollector::new(LanguageProfile::new(HEADER));
    let r = fc.add_rendered("types.py", TemplateOutcome::ConversionFailed);
    match r {
        Err(CollectError::ModelConversion { path }) => assert_eq!(path, "types.py"),
        other => panic!("expected a conversion error, got {:?}", other.is_ok()),
    }
    assert_eq!(fc.snapshot().len(), 0);
}

#[test]
fn add_rendered_render_failure_tags_path() {
    let mut fc = FileCollector::new(LanguageProfile::new(HEADER));
    let r = fc.add_rendered("client.py", TemplateOutcome::RenderFailed);
    match r {
        Err(CollectError::Render { path }) => assert_eq!(path, "client.py"),
        other => panic!("expected a render error, got {:?}", other.is_ok()),
    }
    assert_eq!(fc.snapshot().len(), 0);
}

#[test]
fn is_generated_finds_marker_in_header() {
    assert!(is_generated("# generated by typegen\nbody"));
    assert!(is_generated("x generated by typegen"));
    assert!(!is_generated("plain user notes"));
    assert!(!is_generated(""));
    assert!(!is_generated("generated by hand"));
}

#[test]
fn is_generated_scans_only_bounded_prefix() {
    let mut far = String::new();
    for _ in 0..1100 {
        far.push('a');
    }
    far.push_str("generated by typegen");
    assert!(!is_generated(&far));

    let mut near = String::new();
    for _ in 0..1000 {
        near.push('a');
    }
    near.push_str("generated by typegen");
    assert!(is_generated(&near));
}

#[test]
fn file_map_insert_keeps_sorted_unique_paths() {
    let mut m = FileMap::new();
    m.insert("c", String::from("3"));
    m.insert("a", String::from("1"));
    m.insert("b", String::from("2"));
    m.insert("a", String::from("one"));
    let files = entries(&m);
    assert_eq!(files.len(), 3);
    assert_eq!(files[0], (String::from("a"), String::from("one")));
    assert_eq!(files[1], (String::from("b"), String::from("2")));
    assert_eq!(files[2], (String::from("c"), String::from("3")));
}
