use unfurl::resolver::{MappedSpecifierResolver, SloppyImportsResolver};
use unfurl::source::{
    DependencyDescriptor, DynamicArgument, DynamicDependencyDescriptor, DynamicTemplatePart,
    ModuleInfo, ParsedSource, SpecifierWithRange, StaticDependencyDescriptor, TypeScriptReference,
};
use unfurl::specifier::ModuleSpecifier;
use unfurl::text_changes::SourceRange;
use unfurl::text_changes::TextChange;
use unfurl::dynamic::{conclude_dynamic_dep, edit_for, examine_dynamic_dep, Finding};
use unfurl::unfurl::{SpecifierUnfurler, SpecifierUnfurlerDiagnostic};

const ROOT: &str = "file:///dev/unfurl/";

fn referrer() -> ModuleSpecifier {
    ModuleSpecifier::parse(&format!("{ROOT}mod.ts")).unwrap()
}

fn local(path: &str) -> ModuleSpecifier {
    ModuleSpecifier::parse(&format!("{ROOT}{path}")).unwrap()
}

/// The range of the first place at or after `*from` where `needle` is written;
/// moves `*from` behind it.
fn next_range(source: &str, from: &mut usize, needle: &str) -> SourceRange {
    let at = *from + source[*from..].find(needle).unwrap();
    *from = at + needle.len();
    SourceRange::new(at, at + needle.len())
}

fn static_dep(source: &str, from: &mut usize, specifier: &str) -> DependencyDescriptor {
    let range = next_range(source, from, &format!("\"{specifier}\""));
    DependencyDescriptor::Static(StaticDependencyDescriptor {
        specifier: specifier.to_string(),
        specifier_range: range,
    })
}

fn dynamic_dep(
    source: &str,
    from: &mut usize,
    written: &str,
    argument: DynamicArgument,
) -> DependencyDescriptor {
    let range = next_range(source, from, written);
    DependencyDescriptor::Dynamic(DynamicDependencyDescriptor { argument, argument_range: range })
}

fn text_part(value: &str) -> DynamicTemplatePart {
    DynamicTemplatePart::String { value: value.to_string() }
}

fn module_of(dependencies: Vec<DependencyDescriptor>) -> ModuleInfo {
    ModuleInfo {
        dependencies,
        ts_references: Vec::new(),
        jsdoc_imports: Vec::new(),
        jsx_import_source: None,
    }
}

/// Answers as the import map `imports` and the manifest dependencies give
/// them for each of the specifiers.
fn mapped_resolver(
    import_map_json: &str,
    package_deps: &[(&str, &str)],
    specifiers: &[&str],
    referrer: &ModuleSpecifier,
) -> MappedSpecifierResolver {
    let base = url::Url::parse(&format!("{ROOT}deno.json")).unwrap();
    let import_map = import_map::parse_from_json(base, import_map_json).unwrap().import_map;
    let referrer_url = url::Url::parse(referrer.as_str()).unwrap();
    let mut resolver = MappedSpecifierResolver::new();
    for specifier in specifiers {
        let mut resolved = import_map.resolve(specifier, &referrer_url).ok().map(String::from);
        if resolved.is_none() {
            for (name, req) in package_deps {
                if let Some(path) = specifier.strip_prefix(name) {
                    if path.is_empty() || path.starts_with('/') {
                        resolved = Some(format!("npm:{name}@{req}{path}"));
                        break;
                    }
                }
            }
        }
        if let Some(resolved) = resolved {
            resolver.insert(
                specifier.to_string(),
                referrer.clone(),
                ModuleSpecifier::parse(&resolved).unwrap(),
            );
        }
    }
    resolver
}

const IMPORT_MAP: &str = r#"{
  "imports": {
    "express": "npm:express@5",
    "lib/": "./lib/",
    "fizz": "./fizz/mod.ts",
    "@std/fs": "npm:@jsr/std__fs@1"
  }
}"#;

/// What probing the project directory finds: `baz` is a directory with an
/// `index.js`, and there is a `b.ts` but neither `b.js` nor `b`.
fn sloppy_resolver() -> SloppyImportsResolver {
    let mut resolver = SloppyImportsResolver::new();
    resolver.insert(local("baz"), local("baz/index.js"));
    resolver.insert(local("b.js"), local("b.ts"));
    resolver.insert(local("b"), local("b.ts"));
    resolver
}

const WHOLE_MODULE: &str = r#"import express from "express";"
import foo from "lib/foo.ts";
import bar from "lib/bar.ts";
import fizz from "fizz";
import chalk from "chalk";
import baz from "./baz";
import b from "./b.js";
import b2 from "./b";
import url from "url";
// TODO: unfurl these to jsr
// import "npm:@jsr/std__fs@1/file";
// import "npm:@jsr/std__fs@1";
// import "npm:@jsr/std__fs";
// import "@std/fs";

const test1 = await import("lib/foo.ts");
const test2 = await import(`lib/foo.ts`);
const test3 = await import(`lib/${expr}`);
const test4 = await import(`./lib/${expr}`);
const test5 = await import("./lib/something.ts");
const test6 = await import(`./lib/something.ts`);
// will warn
const warn1 = await import(`lib${expr}`);
const warn2 = await import(`${expr}`);
"#;

const WHOLE_MODULE_UNFURLED: &str = r#"import express from "npm:express@5";"
import foo from "./lib/foo.ts";
import bar from "./lib/bar.ts";
import fizz from "./fizz/mod.ts";
import chalk from "npm:chalk@5";
import baz from "./baz/index.js";
import b from "./b.ts";
import b2 from "./b.ts";
import url from "node:url";
// TODO: unfurl these to jsr
// import "npm:@jsr/std__fs@1/file";
// import "npm:@jsr/std__fs@1";
// import "npm:@jsr/std__fs";
// import "@std/fs";

const test1 = await import("./lib/foo.ts");
const test2 = await import(`./lib/foo.ts`);
const test3 = await import(`./lib/${expr}`);
const test4 = await import(`./lib/${expr}`);
const test5 = await import("./lib/something.ts");
const test6 = await import(`./lib/something.ts`);
// will warn
const warn1 = await import(`lib${expr}`);
const warn2 = await import(`${expr}`);
"#;

const WHOLE_MODULE_SPECIFIERS: [&str; 13] = [
    "express", "lib/foo.ts", "lib/bar.ts", "fizz", "chalk", "./baz", "./b.js", "./b", "url", "lib/",
    "./lib/", "./lib/something.ts", "lib",
];

fn byte_range(
    range: &deno_graph::PositionRange,
    text_info: &deno_ast::SourceTextInfo,
) -> SourceRange {
    let range = range.as_source_range(text_info).as_byte_range(text_info.range().start);
    SourceRange::new(range.start, range.end)
}

fn with_range(
    specifier: &deno_graph::analysis::SpecifierWithRange,
    text_info: &deno_ast::SourceTextInfo,
) -> SpecifierWithRange {
    SpecifierWithRange {
        text: specifier.text.clone(),
        range: byte_range(&specifier.range, text_info),
    }
}

/// Parses the module and hands its text and the occurrences that the
/// analyzer finds to the library.
fn analyze(specifier: &ModuleSpecifier, source_code: &str) -> ParsedSource {
    let specifier = url::Url::parse(specifier.as_str()).unwrap();
    let media_type = deno_ast::MediaType::from_specifier(&specifier);
    let parsed = deno_ast::parse_module(deno_ast::ParseParams {
        specifier,
        media_type,
        capture_tokens: false,
        maybe_syntax: None,
        scope_analysis: false,
        text: source_code.into(),
    })
    .unwrap();
    let text_info = parsed.text_info_lazy();
    let found = deno_graph::ast::ParserModuleAnalyzer::module_info(&parsed);
    let mut dependencies = Vec::new();
    for dep in &found.dependencies {
        dependencies.push(match dep {
            deno_graph::analysis::DependencyDescriptor::Static(dep) => {
                DependencyDescriptor::Static(StaticDependencyDescriptor {
                    specifier: dep.specifier.clone(),
                    specifier_range: byte_range(&dep.specifier_range, text_info),
                })
            }
            deno_graph::analysis::DependencyDescriptor::Dynamic(dep) => {
                let argument = match &dep.argument {
                    deno_graph::analysis::DynamicArgument::String(text) => {
                        DynamicArgument::String(text.clone())
                    }
                    deno_graph::analysis::DynamicArgument::Template(parts) => {
                        DynamicArgument::Template(
                            parts
                                .iter()
                                .map(|part| match part {
                                    deno_graph::analysis::DynamicTemplatePart::String { value } => {
                                        DynamicTemplatePart::String { value: value.clone() }
                                    }
                                    deno_graph::analysis::DynamicTemplatePart::Expr => {
                                        DynamicTemplatePart::Expr
                                    }
                                })
                                .collect(),
                        )
                    }
                    deno_graph::analysis::DynamicArgument::Expr => DynamicArgument::Expr,
                };
                DependencyDescriptor::Dynamic(DynamicDependencyDescriptor {
                    argument,
                    argument_range: byte_range(&dep.argument_range, text_info),
                })
            }
        });
    }
    let mut ts_references = Vec::new();
    for reference in &found.ts_references {
        ts_references.push(match reference {
            deno_graph::analysis::TypeScriptReference::Path(specifier) => {
                TypeScriptReference::Path(with_range(specifier, text_info))
            }
            deno_graph::analysis::TypeScriptReference::Types { specifier, .. } => {
                TypeScriptReference::Types(with_range(specifier, text_info))
            }
        });
    }
    let info = ModuleInfo {
        dependencies,
        ts_references,
        jsdoc_imports: found
            .jsdoc_imports
            .iter()
            .map(|import| with_range(&import.specifier, text_info))
            .collect(),
        jsx_import_source: found
            .jsx_import_source
            .as_ref()
            .map(|specifier| with_range(specifier, text_info)),
    };
    ParsedSource::new(source_code.to_string(), info).unwrap()
}

#[test]
fn test_unfurling() {
    let specifier = referrer();
    let mapped =
        mapped_resolver(IMPORT_MAP, &[("chalk", "5")], &WHOLE_MODULE_SPECIFIERS, &specifier);
    let sloppy = sloppy_resolver();
    let unfurler = SpecifierUnfurler::new(&mapped, Some(&sloppy), true);

    // Unfurling TS file should apply changes.
    {
        let source_code = WHOLE_MODULE;
        let source = analyze(&specifier, source_code);
        let mut d = Vec::new();
        let unfurled_source = unfurler.unfurl(&specifier, &source, &mut d);
        assert_eq!(d.len(), 2);
        assert!(
            matches!(d[0], SpecifierUnfurlerDiagnostic::UnanalyzableDynamicImport { .. }),
            "{:?}",
            d[0]
        );
        assert!(
            matches!(d[1], SpecifierUnfurlerDiagnostic::UnanalyzableDynamicImport { .. }),
            "{:?}",
            d[1]
        );
        let expected_source = WHOLE_MODULE_UNFURLED;
        assert_eq!(unfurled_source, expected_source);
    }
}

/// The occurrences of the whole module, written by hand.
fn whole_module_by_hand() -> ModuleInfo {
    let source_code = WHOLE_MODULE;
    let mut at = 0;
    let mut deps = Vec::new();
    for name in [
        "express", "lib/foo.ts", "lib/bar.ts", "fizz", "chalk", "./baz", "./b.js", "./b", "url",
    ] {
        deps.push(static_dep(source_code, &mut at, name));
    }
    at = source_code.find("const test1").unwrap();
    deps.push(dynamic_dep(
        source_code,
        &mut at,
        "\"lib/foo.ts\"",
        DynamicArgument::String("lib/foo.ts".to_string()),
    ));
    deps.push(dynamic_dep(
        source_code,
        &mut at,
        "`lib/foo.ts`",
        DynamicArgument::String("lib/foo.ts".to_string()),
    ));
    deps.push(dynamic_dep(
        source_code,
        &mut at,
        "`lib/${expr}`",
        DynamicArgument::Template(vec![text_part("lib/"), DynamicTemplatePart::Expr]),
    ));
    deps.push(dynamic_dep(
        source_code,
        &mut at,
        "`./lib/${expr}`",
        DynamicArgument::Template(vec![text_part("./lib/"), DynamicTemplatePart::Expr]),
    ));
    deps.push(dynamic_dep(
        source_code,
        &mut at,
        "\"./lib/something.ts\"",
        DynamicArgument::String("./lib/something.ts".to_string()),
    ));
    deps.push(dynamic_dep(
        source_code,
        &mut at,
        "`./lib/something.ts`",
        DynamicArgument::String("./lib/something.ts".to_string()),
    ));
    deps.push(dynamic_dep(
        source_code,
        &mut at,
        "`lib${expr}`",
        DynamicArgument::Template(vec![text_part("lib"), DynamicTemplatePart::Expr]),
    ));
    deps.push(dynamic_dep(
        source_code,
        &mut at,
        "`${expr}`",
        DynamicArgument::Template(vec![DynamicTemplatePart::Expr]),
    ));
    module_of(deps)
}

#[test]
fn occurrences_written_by_hand_are_those_of_the_analyzer() {
    let source = analyze(&referrer(), WHOLE_MODULE);
    assert_eq!(source.module_info(), &whole_module_by_hand());
}

#[test]
fn whole_module_from_occurrences_written_by_hand() {
    let specifier = referrer();
    let mapped =
        mapped_resolver(IMPORT_MAP, &[("chalk", "5")], &WHOLE_MODULE_SPECIFIERS, &specifier);
    let sloppy = sloppy_resolver();
    let unfurler = SpecifierUnfurler::new(&mapped, Some(&sloppy), true);
    let source = ParsedSource::new(WHOLE_MODULE.to_string(), whole_module_by_hand()).unwrap();
    let mut diagnostics = Vec::new();
    let text = unfurler.unfurl(&specifier, &source, &mut diagnostics);
    assert_eq!(text, WHOLE_MODULE_UNFURLED);
    let warn1 = WHOLE_MODULE.find("`lib${expr}`").unwrap();
    let warn2 = WHOLE_MODULE.find("`${expr}`").unwrap();
    let report = |start: usize, len: usize| SpecifierUnfurlerDiagnostic::UnanalyzableDynamicImport {
        specifier: specifier.clone(),
        range: SourceRange::new(start, start + len),
    };
    assert_eq!(diagnostics, vec![report(warn1, 12), report(warn2, 9)]);
}

#[test]
fn without_the_second_resolver_references_stay_as_resolved() {
    let specifier = referrer();
    let mapped =
        mapped_resolver(IMPORT_MAP, &[("chalk", "5")], &WHOLE_MODULE_SPECIFIERS, &specifier);
    let unfurler = SpecifierUnfurler::new(&mapped, None, true);
    assert_eq!(unfurler.unfurl_specifier(&specifier, "./baz"), None);
    assert_eq!(unfurler.unfurl_specifier(&specifier, "./b.js"), None);
    let sloppy = sloppy_resolver();
    let unfurler = SpecifierUnfurler::new(&mapped, Some(&sloppy), true);
    assert_eq!(unfurler.unfurl_specifier(&specifier, "./baz"), Some("./baz/index.js".to_string()));
    assert_eq!(unfurler.unfurl_specifier(&specifier, "./b.js"), Some("./b.ts".to_string()));
    assert_eq!(
        unfurler.resolve(&specifier, "./b").map(|resolved| resolved.as_str().to_string()),
        Some("file:///dev/unfurl/b.ts".to_string())
    );
}

/// Unfurls a module of one static import under the import map and the
/// manifest of the project.
fn unfurl_static(line: &str, specifier: &str) -> (String, Vec<SpecifierUnfurlerDiagnostic>) {
    let referrer = referrer();
    let mapped = mapped_resolver(IMPORT_MAP, &[("chalk", "5")], &[specifier], &referrer);
    let unfurler = SpecifierUnfurler::new(&mapped, None, true);
    let mut at = 0;
    let deps = vec![static_dep(line, &mut at, specifier)];
    let source = ParsedSource::new(line.to_string(), module_of(deps)).unwrap();
    let mut diagnostics = Vec::new();
    let text = unfurler.unfurl(&referrer, &source, &mut diagnostics);
    (text, diagnostics)
}

/// Unfurls a module of one dynamic import under the import map and the
/// manifest of the project.
fn unfurl_dynamic(
    line: &str,
    written: &str,
    argument: DynamicArgument,
    specifiers: &[&str],
) -> (String, Vec<SpecifierUnfurlerDiagnostic>) {
    let referrer = referrer();
    let mapped = mapped_resolver(IMPORT_MAP, &[("chalk", "5")], specifiers, &referrer);
    let unfurler = SpecifierUnfurler::new(&mapped, None, true);
    let mut at = 0;
    let deps = vec![dynamic_dep(line, &mut at, written, argument)];
    let source = ParsedSource::new(line.to_string(), module_of(deps)).unwrap();
    let mut diagnostics = Vec::new();
    let text = unfurler.unfurl(&referrer, &source, &mut diagnostics);
    (text, diagnostics)
}

#[test]
fn mapped_package_becomes_registry_reference() {
    let (text, diagnostics) = unfurl_static("import express from \"express\";", "express");
    assert_eq!(text, "import express from \"npm:express@5\";");
    assert!(diagnostics.is_empty());
}

#[test]
fn mapped_directory_becomes_relative_path() {
    let (text, _) = unfurl_static("import foo from \"lib/foo.ts\";", "lib/foo.ts");
    assert_eq!(text, "import foo from \"./lib/foo.ts\";");
}

#[test]
fn manifest_dependency_becomes_registry_reference() {
    let (text, _) = unfurl_static("import chalk from \"chalk\";", "chalk");
    assert_eq!(text, "import chalk from \"npm:chalk@5\";");
}

#[test]
fn bare_builtin_gets_node_prefix() {
    let (text, _) = unfurl_static("import url from \"url\";", "url");
    assert_eq!(text, "import url from \"node:url\";");
}

#[test]
fn bare_builtin_left_alone_when_disabled() {
    let referrer = referrer();
    let mapped = MappedSpecifierResolver::new();
    let unfurler = SpecifierUnfurler::new(&mapped, None, false);
    // read against the referrer, `url` is a file beside it
    assert_eq!(unfurler.unfurl_specifier(&referrer, "url"), Some("./url".to_string()));
    let with_builtins = SpecifierUnfurler::new(&mapped, None, true);
    assert_eq!(with_builtins.unfurl_specifier(&referrer, "url"), Some("node:url".to_string()));
}

#[test]
fn dynamic_string_literal_is_rewritten() {
    let (text, diagnostics) = unfurl_dynamic(
        "await import(\"lib/foo.ts\")",
        "\"lib/foo.ts\"",
        DynamicArgument::String("lib/foo.ts".to_string()),
        &["lib/foo.ts"],
    );
    assert_eq!(text, "await import(\"./lib/foo.ts\")");
    assert!(diagnostics.is_empty());
}

#[test]
fn dynamic_directory_template_is_rewritten() {
    let (text, diagnostics) = unfurl_dynamic(
        "await import(`lib/${expr}`)",
        "`lib/${expr}`",
        DynamicArgument::Template(vec![text_part("lib/"), DynamicTemplatePart::Expr]),
        &["lib/"],
    );
    assert_eq!(text, "await import(`./lib/${expr}`)");
    assert!(diagnostics.is_empty());
}

#[test]
fn dynamic_template_without_slash_is_reported() {
    let line = "await import(`lib${expr}`)";
    let (text, diagnostics) = unfurl_dynamic(
        line,
        "`lib${expr}`",
        DynamicArgument::Template(vec![text_part("lib"), DynamicTemplatePart::Expr]),
        &["lib"],
    );
    assert_eq!(text, line);
    assert_eq!(
        diagnostics,
        vec![SpecifierUnfurlerDiagnostic::UnanalyzableDynamicImport {
            specifier: referrer(),
            range: SourceRange::new(13, 25),
        }]
    );
}

#[test]
fn dynamic_template_of_expression_is_reported() {
    let line = "await import(`${expr}`)";
    let (text, diagnostics) = unfurl_dynamic(
        line,
        "`${expr}`",
        DynamicArgument::Template(vec![DynamicTemplatePart::Expr]),
        &[],
    );
    assert_eq!(text, line);
    assert_eq!(diagnostics.len(), 1);
    assert_eq!(diagnostics[0].code(), "unanalyzable-dynamic-import");
    assert_eq!(diagnostics[0].message(), "unable to analyze dynamic import");
}

#[test]
fn dynamic_relative_template_is_left_alone() {
    let line = "await import(`./lib/${expr}`)";
    let (text, diagnostics) = unfurl_dynamic(
        line,
        "`./lib/${expr}`",
        DynamicArgument::Template(vec![text_part("./lib/"), DynamicTemplatePart::Expr]),
        &["./lib/"],
    );
    assert_eq!(text, line);
    assert!(diagnostics.is_empty());
}

#[test]
fn dynamic_expression_is_reported() {
    let line = "await import(name)";
    let (text, diagnostics) = unfurl_dynamic(line, "name", DynamicArgument::Expr, &[]);
    assert_eq!(text, line);
    assert_eq!(diagnostics.len(), 1);
}

#[test]
fn dynamic_empty_template_is_analyzable() {
    let line = "await import(``)";
    let (text, diagnostics) =
        unfurl_dynamic(line, "``", DynamicArgument::Template(Vec::new()), &[]);
    assert_eq!(text, line);
    assert!(diagnostics.is_empty());
}

#[test]
fn dynamic_literal_not_found_in_argument_is_left_alone() {
    // the argument spells the specifier with an escape, so its text is not there
    let line = "await import(\"li\\x62/foo.ts\")";
    let (text, diagnostics) = unfurl_dynamic(
        line,
        "\"li\\x62/foo.ts\"",
        DynamicArgument::String("lib/foo.ts".to_string()),
        &["lib/foo.ts"],
    );
    assert_eq!(text, line);
    assert!(diagnostics.is_empty());
}

#[test]
fn dynamic_template_prefix_not_found_is_reported() {
    let line = "await import(`li\\x62/${expr}`)";
    let (text, diagnostics) = unfurl_dynamic(
        line,
        "`li\\x62/${expr}`",
        DynamicArgument::Template(vec![text_part("lib/"), DynamicTemplatePart::Expr]),
        &["lib/"],
    );
    assert_eq!(text, line);
    assert_eq!(diagnostics.len(), 1);
}

#[test]
fn references_and_pragmas_are_rewritten() {
    let source_code = "/// <reference path=\"lib/types.d.ts\" />\n/** @jsxImportSource express */\n/** @type {import(\"lib/foo.ts\").Foo} */\nimport foo from \"fizz\";\n";
    let referrer = referrer();
    let mapped = mapped_resolver(
        IMPORT_MAP,
        &[],
        &["lib/types.d.ts", "express", "lib/foo.ts", "fizz"],
        &referrer,
    );
    let unfurler = SpecifierUnfurler::new(&mapped, None, false);
    let mut at = 0;
    let reference = next_range(source_code, &mut at, "\"lib/types.d.ts\"");
    let jsx = next_range(source_code, &mut at, "express");
    let jsdoc = next_range(source_code, &mut at, "\"lib/foo.ts\"");
    let deps = vec![static_dep(source_code, &mut at, "fizz")];
    let info = ModuleInfo {
        dependencies: deps,
        ts_references: vec![TypeScriptReference::Path(SpecifierWithRange {
            text: "lib/types.d.ts".to_string(),
            range: reference,
        })],
        jsdoc_imports: vec![SpecifierWithRange { text: "lib/foo.ts".to_string(), range: jsdoc }],
        jsx_import_source: Some(SpecifierWithRange { text: "express".to_string(), range: jsx }),
    };
    let source = ParsedSource::new(source_code.to_string(), info).unwrap();
    let mut diagnostics = Vec::new();
    let text = unfurler.unfurl(&referrer, &source, &mut diagnostics);
    assert_eq!(
        text,
        "/// <reference path=\"./lib/types.d.ts\" />\n/** @jsxImportSource npm:express@5 */\n/** @type {import(\"./lib/foo.ts\").Foo} */\nimport foo from \"./fizz/mod.ts\";\n"
    );
    assert!(diagnostics.is_empty());
}

#[test]
fn unfurling_twice_changes_nothing_more() {
    let first = "import express from \"express\";\nconst a = await import(`lib/${x}`);\n";
    let referrer = referrer();
    let mapped = mapped_resolver(
        IMPORT_MAP,
        &[],
        &["express", "lib/", "npm:express@5", "./lib/"],
        &referrer,
    );
    let unfurler = SpecifierUnfurler::new(&mapped, None, true);
    let mut at = 0;
    let deps = vec![
        static_dep(first, &mut at, "express"),
        dynamic_dep(
            first,
            &mut at,
            "`lib/${x}`",
            DynamicArgument::Template(vec![text_part("lib/"), DynamicTemplatePart::Expr]),
        ),
    ];
    let source = ParsedSource::new(first.to_string(), module_of(deps)).unwrap();
    let mut diagnostics = Vec::new();
    let once = unfurler.unfurl(&referrer, &source, &mut diagnostics);
    assert_eq!(once, "import express from \"npm:express@5\";\nconst a = await import(`./lib/${x}`);\n");

    let mut at = 0;
    let deps = vec![
        static_dep(&once, &mut at, "npm:express@5"),
        dynamic_dep(
            &once,
            &mut at,
            "`./lib/${x}`",
            DynamicArgument::Template(vec![text_part("./lib/"), DynamicTemplatePart::Expr]),
        ),
    ];
    let source = ParsedSource::new(once.clone(), module_of(deps)).unwrap();
    let twice = unfurler.unfurl(&referrer, &source, &mut diagnostics);
    assert_eq!(twice, once);
    assert!(diagnostics.is_empty());
}

#[test]
fn diagnostics_follow_the_order_of_the_imports() {
    let source_code = "import(a);\nimport(\"lib/foo.ts\");\nimport(`lib${b}`);\nimport(c);\n";
    let referrer = referrer();
    let mapped = mapped_resolver(IMPORT_MAP, &[], &["lib/foo.ts"], &referrer);
    let unfurler = SpecifierUnfurler::new(&mapped, None, true);
    let mut at = 0;
    let deps = vec![
        dynamic_dep(source_code, &mut at, "a", DynamicArgument::Expr),
        dynamic_dep(
            source_code,
            &mut at,
            "\"lib/foo.ts\"",
            DynamicArgument::String("lib/foo.ts".to_string()),
        ),
        dynamic_dep(
            source_code,
            &mut at,
            "`lib${b}`",
            DynamicArgument::Template(vec![text_part("lib"), DynamicTemplatePart::Expr]),
        ),
        dynamic_dep(source_code, &mut at, "c", DynamicArgument::Expr),
    ];
    let source = ParsedSource::new(source_code.to_string(), module_of(deps)).unwrap();
    let mut diagnostics = vec![SpecifierUnfurlerDiagnostic::UnanalyzableDynamicImport {
        specifier: local("earlier.ts"),
        range: SourceRange::new(1, 2),
    }];
    let text = unfurler.unfurl(&referrer, &source, &mut diagnostics);
    assert_eq!(text, "import(a);\nimport(\"./lib/foo.ts\");\nimport(`lib${b}`);\nimport(c);\n");
    let report = |start: usize, end: usize| SpecifierUnfurlerDiagnostic::UnanalyzableDynamicImport {
        specifier: referrer.clone(),
        range: SourceRange::new(start, end),
    };
    assert_eq!(
        diagnostics,
        vec![
            SpecifierUnfurlerDiagnostic::UnanalyzableDynamicImport {
                specifier: local("earlier.ts"),
                range: SourceRange::new(1, 2),
            },
            report(7, 8),
            report(40, 49),
            report(59, 60),
        ]
    );
}

#[test]
fn occurrences_that_do_not_fit_are_refused() {
    let text = "import a from \"a\";";
    let dep = |start: usize, end: usize| {
        DependencyDescriptor::Static(StaticDependencyDescriptor {
            specifier: "a".to_string(),
            specifier_range: SourceRange::new(start, end),
        })
    };
    // in the text
    assert!(ParsedSource::new(text.to_string(), module_of(vec![dep(14, 17)])).is_some());
    // beyond the end of the text
    assert!(ParsedSource::new(text.to_string(), module_of(vec![dep(14, 19)])).is_none());
    // running backwards
    assert!(ParsedSource::new(text.to_string(), module_of(vec![dep(17, 14)])).is_none());
    // overlapping
    assert!(ParsedSource::new(text.to_string(), module_of(vec![dep(14, 17), dep(15, 18)])).is_none());
    // side by side
    assert!(ParsedSource::new(text.to_string(), module_of(vec![dep(14, 17), dep(17, 18)])).is_some());
    // the quotes are not written over, so they may be shared
    assert!(ParsedSource::new(text.to_string(), module_of(vec![dep(14, 17), dep(16, 18)])).is_some());
    // a lone quote leaves an empty place behind it
    assert!(ParsedSource::new(text.to_string(), module_of(vec![dep(14, 15)])).is_some());
    // not on a character boundary
    let accented = "import a from \"é\";";
    assert!(ParsedSource::new(accented.to_string(), module_of(vec![dep(16, 17)])).is_none());
    assert!(ParsedSource::new(accented.to_string(), module_of(vec![dep(14, 18)])).is_some());
}

#[test]
fn dynamic_import_inside_the_argument_of_another() {
    let source_code = "await import(`${await import(\"lib/foo.ts\")}/x`);\n";
    let referrer = referrer();
    let source = analyze(&referrer, source_code);
    assert_eq!(source.module_info().dependencies.len(), 2);
    let mapped = mapped_resolver(IMPORT_MAP, &[], &["lib/foo.ts"], &referrer);
    let unfurler = SpecifierUnfurler::new(&mapped, None, true);
    let mut diagnostics = Vec::new();
    let text = unfurler.unfurl(&referrer, &source, &mut diagnostics);
    assert_eq!(text, "await import(`${await import(\"./lib/foo.ts\")}/x`);\n");
    let outer = source_code.find('`').unwrap();
    assert_eq!(
        diagnostics,
        vec![SpecifierUnfurlerDiagnostic::UnanalyzableDynamicImport {
            specifier: referrer.clone(),
            range: SourceRange::new(outer, source_code.rfind('`').unwrap() + 1),
        }]
    );
}

#[test]
fn range_of_a_settled_dynamic_import_is_not_read() {
    // the ranges lie beyond the text, and no look at the argument reads them
    let far = SourceRange::new(100, 200);
    let settled = |argument: DynamicArgument| {
        DependencyDescriptor::Dynamic(DynamicDependencyDescriptor {
            argument,
            argument_range: far,
        })
    };
    let info = module_of(vec![
        settled(DynamicArgument::Expr),
        settled(DynamicArgument::Template(Vec::new())),
        settled(DynamicArgument::Template(vec![DynamicTemplatePart::Expr])),
        settled(DynamicArgument::Template(vec![text_part("./lib/")])),
        settled(DynamicArgument::Template(vec![text_part("lib")])),
    ]);
    let source = ParsedSource::new("import(x)".to_string(), info).unwrap();
    let referrer = referrer();
    let mapped = MappedSpecifierResolver::new();
    let unfurler = SpecifierUnfurler::new(&mapped, None, true);
    let mut diagnostics = Vec::new();
    assert_eq!(unfurler.unfurl(&referrer, &source, &mut diagnostics), "import(x)");
    assert_eq!(diagnostics.len(), 3);
    // a string literal is looked for in its range
    let read = module_of(vec![settled(DynamicArgument::String("x".to_string()))]);
    assert!(ParsedSource::new("import(x)".to_string(), read).is_none());
}

#[test]
fn text_around_the_edits_is_kept() {
    let source_code = "// é\nimport express from \"express\"; // ü\n";
    let referrer = referrer();
    let mapped = mapped_resolver(IMPORT_MAP, &[], &["express"], &referrer);
    let unfurler = SpecifierUnfurler::new(&mapped, None, true);
    let mut at = 0;
    let deps = vec![static_dep(source_code, &mut at, "express")];
    let source = ParsedSource::new(source_code.to_string(), module_of(deps)).unwrap();
    assert_eq!(source.text_str(), source_code);
    assert_eq!(source.module_info().dependencies.len(), 1);
    let mut diagnostics = Vec::new();
    let text = unfurler.unfurl(&referrer, &source, &mut diagnostics);
    assert_eq!(text, "// é\nimport express from \"npm:express@5\"; // ü\n");
    // the text grows by what the one edit adds
    assert_eq!(text.len() - source_code.len(), "npm:express@5".len() - "express".len());
}

/// A module of one dynamic import and that import.
fn one_dynamic(
    line: &str,
    written: &str,
    argument: DynamicArgument,
) -> (ParsedSource, DynamicDependencyDescriptor) {
    let mut at = 0;
    let range = next_range(line, &mut at, written);
    let dep = |argument: DynamicArgument| DynamicDependencyDescriptor { argument, argument_range: range };
    let copy = match &argument {
        DynamicArgument::String(text) => DynamicArgument::String(text.clone()),
        DynamicArgument::Template(parts) => DynamicArgument::Template(
            parts
                .iter()
                .map(|part| match part {
                    DynamicTemplatePart::String { value } => text_part(value),
                    DynamicTemplatePart::Expr => DynamicTemplatePart::Expr,
                })
                .collect(),
        ),
        DynamicArgument::Expr => DynamicArgument::Expr,
    };
    let info = module_of(vec![DependencyDescriptor::Dynamic(dep(copy))]);
    (ParsedSource::new(line.to_string(), info).unwrap(), dep(argument))
}

#[test]
fn looking_at_the_argument_of_a_dynamic_import() {
    let settled = |analyzable: bool| Finding::Settled { analyzable };
    let template = |first: &str| {
        DynamicArgument::Template(vec![text_part(first), DynamicTemplatePart::Expr])
    };

    let (source, dep) = one_dynamic(
        "import(\"lib/foo.ts\")",
        "\"lib/foo.ts\"",
        DynamicArgument::String("lib/foo.ts".to_string()),
    );
    assert_eq!(
        examine_dynamic_dep(source.text_str(), &dep),
        Finding::Candidate { specifier: "lib/foo.ts", span: Some(SourceRange::new(8, 18)) }
    );

    let (source, dep) = one_dynamic(
        "import(\"li\\x62\")",
        "\"li\\x62\"",
        DynamicArgument::String("lib".to_string()),
    );
    assert_eq!(examine_dynamic_dep(source.text_str(), &dep), settled(true));

    let (source, dep) = one_dynamic("import(`lib/${x}`)", "`lib/${x}`", template("lib/"));
    assert_eq!(
        examine_dynamic_dep(source.text_str(), &dep),
        Finding::Candidate { specifier: "lib/", span: Some(SourceRange::new(8, 12)) }
    );

    let (source, dep) = one_dynamic("import(`li\\x62/${x}`)", "`li\\x62/${x}`", template("lib/"));
    assert_eq!(
        examine_dynamic_dep(source.text_str(), &dep),
        Finding::Candidate { specifier: "lib/", span: None }
    );

    let (source, dep) = one_dynamic("import(`./lib/${x}`)", "`./lib/${x}`", template("./lib/"));
    assert_eq!(examine_dynamic_dep(source.text_str(), &dep), settled(true));
    let (source, dep) = one_dynamic("import(`../lib${x}`)", "`../lib${x}`", template("../lib"));
    assert_eq!(examine_dynamic_dep(source.text_str(), &dep), settled(true));
    let (source, dep) = one_dynamic("import(`lib${x}`)", "`lib${x}`", template("lib"));
    assert_eq!(examine_dynamic_dep(source.text_str(), &dep), settled(false));
    let (source, dep) = one_dynamic(
        "import(`${x}/lib/`)",
        "`${x}/lib/`",
        DynamicArgument::Template(vec![DynamicTemplatePart::Expr, text_part("/lib/")]),
    );
    assert_eq!(examine_dynamic_dep(source.text_str(), &dep), settled(false));
    let (source, dep) = one_dynamic("import(``)", "``", DynamicArgument::Template(Vec::new()));
    assert_eq!(examine_dynamic_dep(source.text_str(), &dep), settled(true));
    let (source, dep) = one_dynamic("import(name)", "name", DynamicArgument::Expr);
    assert_eq!(examine_dynamic_dep(source.text_str(), &dep), settled(false));
    // a string built with `+` is quoted at its beginning only
    let (source, dep) = one_dynamic(
        "import(\"lib/\" + name)",
        "\"lib/\" + name",
        DynamicArgument::Template(vec![text_part("lib/"), DynamicTemplatePart::Expr]),
    );
    assert_eq!(
        examine_dynamic_dep(source.text_str(), &dep),
        Finding::Candidate { specifier: "lib/", span: Some(SourceRange::new(8, 12)) }
    );
}

#[test]
fn deciding_of_a_dynamic_import() {
    let literal = || Some("./lib/".to_string());
    let found = Finding::Candidate { specifier: "lib/", span: Some(SourceRange::new(8, 12)) };
    assert_eq!(
        conclude_dynamic_dep(&found, literal()),
        (Some(TextChange::new(8, 12, "./lib/".to_string())), true)
    );
    assert_eq!(conclude_dynamic_dep(&found, None), (None, true));
    let lost = Finding::Candidate { specifier: "lib/", span: None };
    assert_eq!(conclude_dynamic_dep(&lost, literal()), (None, false));
    assert_eq!(conclude_dynamic_dep(&lost, None), (None, true));
    for analyzable in [true, false] {
        let settled = Finding::Settled { analyzable };
        assert_eq!(conclude_dynamic_dep(&settled, literal()), (None, analyzable));
        assert_eq!(conclude_dynamic_dep(&settled, None), (None, analyzable));
    }
}

#[test]
fn edit_for_what_a_specifier_unfurls_to() {
    let range = SourceRange::new(15, 22);
    assert_eq!(
        edit_for(Some("npm:express@5".to_string()), range),
        Some(TextChange { range, new_text: "npm:express@5".to_string() })
    );
    assert_eq!(edit_for(None, range), None);
}

#[test]
fn specifier_that_does_not_resolve_is_left_alone() {
    let referrer = referrer();
    let mapped = MappedSpecifierResolver::new();
    let unfurler = SpecifierUnfurler::new(&mapped, None, true);
    // no URL can be read from this, whatever the base
    assert_eq!(unfurler.resolve(&referrer, "http://[::1"), None);
    assert_eq!(unfurler.unfurl_specifier(&referrer, "http://[::1"), None);
    let (text, diagnostics) =
        unfurl_static("import a from \"http://[::1\";", "http://[::1");
    assert_eq!(text, "import a from \"http://[::1\";");
    assert!(diagnostics.is_empty());
    // a referrer that cannot be a base reads no relative specifier
    let opaque = ModuleSpecifier::parse("npm:express@5").unwrap();
    assert_eq!(unfurler.unfurl_specifier(&opaque, "./a.ts"), None);
}

#[test]
fn specifier_already_written_as_it_should_be_yields_no_edit() {
    let referrer = referrer();
    let mapped = mapped_resolver(IMPORT_MAP, &[], &["./lib/foo.ts", "npm:express@5"], &referrer);
    let unfurler = SpecifierUnfurler::new(&mapped, None, true);
    assert_eq!(unfurler.unfurl_specifier(&referrer, "./lib/foo.ts"), None);
    assert_eq!(unfurler.unfurl_specifier(&referrer, "npm:express@5"), None);
    assert_eq!(unfurler.unfurl_specifier(&referrer, "node:url"), None);
    assert_eq!(unfurler.unfurl_specifier(&referrer, "../x.ts"), None);
    // the same file, written otherwise
    assert_eq!(
        unfurler.unfurl_specifier(&referrer, "./lib/../lib/foo.ts"),
        Some("./lib/foo.ts".to_string())
    );
    let (text, diagnostics) = unfurl_static("import foo from \"./lib/foo.ts\";", "./lib/foo.ts");
    assert_eq!(text, "import foo from \"./lib/foo.ts\";");
    assert!(diagnostics.is_empty());
}

#[test]
fn specifiers_that_a_module_is_written_with() {
    let source = analyze(&referrer(), WHOLE_MODULE);
    assert_eq!(
        source.module_info().written_specifiers(),
        vec![
            "express",
            "lib/foo.ts",
            "lib/bar.ts",
            "fizz",
            "chalk",
            "./baz",
            "./b.js",
            "./b",
            "url",
            "lib/foo.ts",
            "lib/foo.ts",
            "lib/",
            "./lib/",
            "./lib/something.ts",
            "./lib/something.ts",
            "lib",
        ]
    );
    let info = ModuleInfo {
        dependencies: vec![
            DependencyDescriptor::Dynamic(DynamicDependencyDescriptor {
                argument: DynamicArgument::Expr,
                argument_range: SourceRange::new(0, 1),
            }),
            DependencyDescriptor::Dynamic(DynamicDependencyDescriptor {
                argument: DynamicArgument::Template(Vec::new()),
                argument_range: SourceRange::new(1, 2),
            }),
        ],
        ts_references: vec![TypeScriptReference::Types(SpecifierWithRange {
            text: "./types.d.ts".to_string(),
            range: SourceRange::new(2, 3),
        })],
        jsdoc_imports: vec![SpecifierWithRange {
            text: "./doc.ts".to_string(),
            range: SourceRange::new(3, 4),
        }],
        jsx_import_source: Some(SpecifierWithRange {
            text: "preact".to_string(),
            range: SourceRange::new(4, 5),
        }),
    };
    assert_eq!(info.written_specifiers(), vec!["./types.d.ts", "./doc.ts", "preact"]);
    assert_eq!(info.dependencies[0].specifier_text(), None);
    // where a pass may write: nowhere for the two dynamic imports
    assert_eq!(
        info.sites_in("01234"),
        Some(vec![
            None,
            None,
            Some(SourceRange::new(2, 3)),
            Some(SourceRange::new(3, 4)),
            Some(SourceRange::new(4, 5)),
        ])
    );
    // the last range does not lie in a shorter text
    assert_eq!(info.sites_in("0123"), None);
}

#[test]
fn answers_for_other_specifiers_change_nothing() {
    let specifier = referrer();
    let source = ParsedSource::new(WHOLE_MODULE.to_string(), whole_module_by_hand()).unwrap();
    let asked = source.module_info().written_specifiers();
    let needed = mapped_resolver(IMPORT_MAP, &[("chalk", "5")], &asked, &specifier);
    let mut more = mapped_resolver(IMPORT_MAP, &[("chalk", "5")], &asked, &specifier);
    more.insert(
        "@std/fs".to_string(),
        specifier.clone(),
        ModuleSpecifier::parse("npm:@jsr/std__fs@1").unwrap(),
    );
    more.insert("express".to_string(), local("other.ts"), local("express.ts"));
    let sloppy = sloppy_resolver();
    let mut first_reports = Vec::new();
    let first = SpecifierUnfurler::new(&needed, Some(&sloppy), true).unfurl(
        &specifier,
        &source,
        &mut first_reports,
    );
    let mut second_reports = Vec::new();
    let second = SpecifierUnfurler::new(&more, Some(&sloppy), true).unfurl(
        &specifier,
        &source,
        &mut second_reports,
    );
    assert_eq!(first, WHOLE_MODULE_UNFURLED);
    assert_eq!(second, first);
    assert_eq!(second_reports, first_reports);
}
