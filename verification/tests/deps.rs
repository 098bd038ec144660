use unfurl::deps::{
    deno_json_deps, can_be_read, dep_from, imports_values, insert_dep, scope_values,
    values_to_set, ConfigFileJson, JsonMember, JsonValue, JsrDepPackageReq, PackageKind,
};

fn text(value: &str) -> JsonValue {
    JsonValue::String(value.to_string())
}

fn object(members: Vec<(&str, JsonValue)>) -> JsonValue {
    JsonValue::Object(
        members
            .into_iter()
            .map(|(key, value)| JsonMember { key: key.to_string(), value })
            .collect(),
    )
}

fn jsr(req: &str) -> JsrDepPackageReq {
    JsrDepPackageReq { kind: PackageKind::Jsr, req: req.to_string() }
}

fn npm(req: &str) -> JsrDepPackageReq {
    JsrDepPackageReq { kind: PackageKind::Npm, req: req.to_string() }
}

#[test]
fn strings_among_the_imports() {
    let imports = object(vec![
        ("express", text("npm:express@5")),
        ("count", JsonValue::Other),
        ("lib/", text("./lib/")),
        ("nested", object(vec![("a", text("npm:a"))])),
    ]);
    assert_eq!(imports_values(Some(&imports)), vec!["npm:express@5", "./lib/"]);
    assert!(imports_values(None).is_empty());
    assert!(imports_values(Some(&text("npm:express@5"))).is_empty());
    assert!(imports_values(Some(&JsonValue::Other)).is_empty());
    assert!(imports_values(Some(&object(Vec::new()))).is_empty());
}

#[test]
fn strings_among_the_imports_of_the_scopes() {
    let scopes = object(vec![
        ("./a/", object(vec![("x", text("npm:x@1")), ("y", text("./y.ts"))])),
        ("./b/", text("npm:ignored")),
        ("./c/", object(vec![("z", text("jsr:@z/z@2")), ("n", JsonValue::Other)])),
    ]);
    assert_eq!(scope_values(Some(&scopes)), vec!["npm:x@1", "./y.ts", "jsr:@z/z@2"]);
    assert!(scope_values(None).is_empty());
    assert!(scope_values(Some(&JsonValue::Other)).is_empty());
}

#[test]
fn references_become_requirements() {
    let values: Vec<String> = [
        "jsr:@std/fs@1",
        "npm:express@5",
        "./lib/",
        "npm:chalk",
        "jsr:@std/fs@1/copy",
        "https://example.com/mod.ts",
        "npm:express@5/lib/router",
        "jsr:express@5",
    ]
    .iter()
    .map(|value| value.to_string())
    .collect();
    let values: Vec<&String> = values.iter().collect();
    assert_eq!(
        values_to_set(&values),
        vec![jsr("@std/fs@1"), npm("express@5"), npm("chalk@*"), jsr("express@5")]
    );
    assert!(values_to_set(&Vec::new()).is_empty());
}

#[test]
fn dependencies_of_a_configuration_file() {
    let config = ConfigFileJson {
        imports: Some(object(vec![
            ("@std/fs", text("jsr:@std/fs@1")),
            ("express", text("npm:express@5")),
            ("lib/", text("./lib/")),
        ])),
        scopes: Some(object(vec![(
            "./vendor/",
            object(vec![("express", text("npm:express@4")), ("fs", text("jsr:@std/fs@1"))]),
        )])),
    };
    assert_eq!(
        deno_json_deps(&config),
        vec![jsr("@std/fs@1"), npm("express@5"), npm("express@4")]
    );
    let empty = ConfigFileJson { imports: None, scopes: None };
    assert!(deno_json_deps(&empty).is_empty());
}

#[test]
fn requirements_compare_by_registry_and_text() {
    assert!(jsr("a@1").same_as(&JsrDepPackageReq::jsr("a@1".to_string())));
    assert!(npm("a@1").same_as(&JsrDepPackageReq::npm("a@1".to_string())));
    assert!(!jsr("a@1").same_as(&npm("a@1")));
    assert!(!jsr("a@1").same_as(&jsr("a@2")));
}

#[test]
fn requirement_is_added_once() {
    let mut entries = Vec::new();
    insert_dep(&mut entries, jsr("a@1"));
    insert_dep(&mut entries, npm("a@1"));
    insert_dep(&mut entries, jsr("a@1"));
    insert_dep(&mut entries, jsr("b"));
    insert_dep(&mut entries, npm("a@1"));
    assert_eq!(entries, vec![jsr("a@1"), npm("a@1"), jsr("b")]);
}

#[test]
fn jsr_reading_comes_before_npm_reading() {
    let text = |value: &str| Some(value.to_string());
    assert_eq!(dep_from(text("a@1"), None), Some(jsr("a@1")));
    assert_eq!(dep_from(None, text("a@1")), Some(npm("a@1")));
    assert_eq!(dep_from(text("a@1"), text("b@2")), Some(jsr("a@1")));
    assert_eq!(dep_from(None, None), None);
}

fn set_of(values: &[&str]) -> Vec<JsrDepPackageReq> {
    let values: Vec<String> = values.iter().map(|value| value.to_string()).collect();
    let values: Vec<&String> = values.iter().collect();
    values_to_set(&values)
}

#[test]
fn requirements_for_the_same_versions_are_one() {
    assert_eq!(set_of(&["npm:a@1", "npm:a@1.x", "npm:a@^1", "npm:a@1.0.0"]).len(), 2);
    assert_eq!(set_of(&["jsr:@a/b@1", "jsr:@a/b@1.x.x"]).len(), 1);
    assert_eq!(set_of(&["npm:a", "npm:a@*"]).len(), 1);
    assert_eq!(set_of(&["npm:a@1", "jsr:a@1"]).len(), 2);
}

#[test]
fn references_with_long_numbers_are_read() {
    // digits in the name, in a pre-release, and in a full version
    assert!(can_be_read("npm:pkg12345678901234567890"));
    assert!(can_be_read("jsr:@a/b@1.0.0-20240101000000000000"));
    assert!(can_be_read("npm:a@18446744073709551615.0.0"));
    assert_eq!(
        set_of(&[
            "npm:pkg12345678901234567890",
            "jsr:@a/b@1.0.0-20240101000000000000",
            "npm:a@18446744073709551615.0.0",
        ]),
        vec![
            npm("pkg12345678901234567890@*"),
            jsr("@a/b@1.0.0-20240101000000000000"),
            npm("a@18446744073709551615.0.0"),
        ]
    );
}

#[test]
fn one_more_than_the_greatest_number_is_not_read() {
    const MAX: &str = "18446744073709551615";
    let reads = |requirement: &str| can_be_read(&requirement.replace("MAX", MAX));
    // behind `~` the second part is raised where it is a number, else the first
    assert!(!reads("npm:a@~MAX"));
    assert!(!reads("npm:a@~MAX.x"));
    assert!(!reads("npm:a@~1.MAX"));
    assert!(!reads("npm:a@~1.MAX.5"));
    assert!(reads("npm:a@~MAX.0"));
    assert!(reads("npm:a@~MAX.0.0"));
    assert!(reads("npm:a@~1.2.MAX"));
    // behind `^` the first part is raised, and the next ones behind zeros
    assert!(!reads("npm:a@^MAX"));
    assert!(!reads("npm:a@^MAX.1.2"));
    assert!(!reads("npm:a@^0.MAX"));
    assert!(!reads("npm:a@^0.MAX.1"));
    assert!(!reads("npm:a@^0.0.MAX"));
    assert!(reads("npm:a@^1.MAX.0"));
    assert!(reads("npm:a@^0.1.MAX"));
    assert!(reads("npm:a@^0.x.MAX"));
    assert!(reads("npm:a@^x.MAX"));
    // a version with parts left out is raised in its last number
    assert!(!reads("npm:a@MAX"));
    assert!(!reads("npm:a@MAX.x"));
    assert!(!reads("npm:a@MAX.*.3"));
    assert!(!reads("npm:a@1.MAX"));
    assert!(!reads("npm:a@1.MAX.X"));
    assert!(reads("npm:a@MAX.0"));
    assert!(reads("npm:a@MAX.MAX.MAX"));
    assert!(reads("npm:a@1.2.MAX-beta"));
    assert!(reads("npm:a@x.MAX"));
    // the same for the other registry, for names with a scope and behind a slash
    assert!(!reads("jsr:@a/b@~MAX"));
    assert!(!reads("jsr:@a/b@^MAX/mod.ts"));
    assert!(!reads("npm:/a@MAX"));
    assert!(!reads("npm:/@a/b@MAX"));
    // a greater number is no number, and the parser stops at it
    assert!(reads("npm:a@^18446744073709551616"));
    assert!(reads("npm:a@^28446744073709551615"));
    assert!(reads("npm:a@^184467440737095516150"));
    assert!(reads("npm:a@~1.18446744073709551616"));
    assert!(reads("npm:a@^0.0.18446744073709551616"));
    assert!(reads("npm:a@^18446744073709551614"));
    assert!(reads("npm:a@^0MAX"));
    // not in the version requirement
    assert!(reads("npm:MAX"));
    assert!(reads("npm:a@1/MAX"));
    assert!(reads("npm:a@1/b@^MAX"));
    assert!(reads("jsr:@MAX/b@1"));
    assert!(reads("jsr:@a/b"));
    assert!(reads("jsr:@a"));
    assert!(reads("npm:"));
    assert!(reads("npm"));
    assert!(reads(""));
    // no reference to a package
    assert!(reads("https://example.com/a@^MAX"));
    assert!(reads("./a@^MAX"));
    assert!(reads("a@^MAX"));
    // such references name no requirement
    assert!(set_of(&["npm:a@^18446744073709551615", "jsr:@a/b@~18446744073709551615"]).is_empty());
    assert_eq!(
        set_of(&["npm:a@18446744073709551615", "npm:b@1844674407370955161"]),
        vec![npm("b@1844674407370955161")]
    );
}

#[test]
fn every_form_of_requirement_is_read_or_left_out() {
    let parts = [
        "0",
        "1",
        "18446744073709551615",
        "18446744073709551614",
        "18446744073709551616",
        "x",
        "*",
        "01",
        "",
        "a",
    ];
    let dotted: Vec<String> = parts
        .iter()
        .map(|part| format!(".{part}"))
        .chain(std::iter::once(String::new()))
        .collect();
    let mut read = 0;
    let mut left_out = 0;
    for scheme in ["npm:", "jsr:@s/", "npm:/"] {
        for operator in ["", "~", "^", "="] {
            for major in parts {
                for minor in &dotted {
                    for patch in &dotted {
                        for tail in ["", "-beta", "/x", "."] {
                            let value = format!("{scheme}a@{operator}{major}{minor}{patch}{tail}");
                            // the parser is only asked where it can read
                            let found = set_of(&[value.as_str()]);
                            if can_be_read(&value) {
                                read += 1;
                            } else {
                                left_out += 1;
                                assert!(found.is_empty());
                            }
                        }
                    }
                }
            }
        }
    }
    assert_eq!(read + left_out, 3 * 4 * 10 * 11 * 11 * 4);
    assert!(left_out > 0);
}
