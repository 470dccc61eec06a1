use componentize_mbt::bindgen::{internal_key, resolve_symbols};
use componentize_mbt::parse::parse_module;
use componentize_mbt::render::render_module;
use componentize_mbt::shims::ShimCatalog;
use componentize_mbt::symbols::SymbolMap;
use componentize_mbt::text::{tokenize, Tok};
use componentize_mbt::transform::transform;
use componentize_mbt::tree::{Field, ModuleTree};
use componentize_mbt::world::{augment, WorldExports, WorldFunc};
use componentize_mbt::AdaptError;

fn plain_func(name: &str, has_result: bool) -> WorldFunc {
    WorldFunc {
        name: name.to_owned(),
        n_params: 0,
        has_result,
        freestanding: true,
        docs: String::new(),
    }
}

fn names_of(w: &WorldExports) -> Vec<String> {
    w.funcs.iter().map(|f| f.name.clone()).collect()
}

#[test]
fn augment_inserts_initializer() {
    let mut w = WorldExports { funcs: vec![plain_func("greet", true)] };
    augment(&mut w);
    assert_eq!(names_of(&w), vec!["greet".to_owned(), "_initialize".to_owned()]);
    let added = &w.funcs[1];
    assert_eq!(added.n_params, 0);
    assert!(!added.has_result);
    assert!(added.freestanding);
    assert_eq!(added.docs, "");
}

#[test]
fn augment_leaves_declared_initializer() {
    let mut w = WorldExports {
        funcs: vec![plain_func("_initialize", false), plain_func("greet", true)],
    };
    augment(&mut w);
    assert_eq!(names_of(&w), vec!["_initialize".to_owned(), "greet".to_owned()]);
}

#[test]
fn augment_twice_equals_once() {
    let mut once = WorldExports { funcs: vec![plain_func("greet", true)] };
    augment(&mut once);
    let mut twice = WorldExports { funcs: vec![plain_func("greet", true)] };
    augment(&mut twice);
    augment(&mut twice);
    assert_eq!(names_of(&once), names_of(&twice));
    assert_eq!(once.funcs.len(), twice.funcs.len());
}

#[test]
fn internal_key_mangles_kebab_case() {
    assert_eq!(internal_key("say-hello"), "say_hello");
    assert_eq!(internal_key("greet"), "greet");
    assert_eq!(internal_key(""), "");
    assert_eq!(internal_key("a-b-c"), "a_b_c");
}

#[test]
fn resolve_symbols_builds_one_entry_per_export() {
    let w = WorldExports {
        funcs: vec![plain_func("say-hello", false), plain_func("greet", true)],
    };
    let m = resolve_symbols(&w);
    assert_eq!(m.entries.len(), 2);
    assert_eq!(m.entries[0].key, "say_hello");
    assert_eq!(m.entries[0].symbol, "say-hello");
    assert!(!m.entries[0].has_result);
    assert_eq!(m.entries[1].key, "greet");
    assert_eq!(m.entries[1].symbol, "greet");
    assert!(m.entries[1].has_result);
}

#[test]
fn lookup_returns_first_match() {
    let mut m = SymbolMap::new();
    m.insert("greet".to_owned(), "greet_1".to_owned(), true);
    m.insert("greet".to_owned(), "greet_2".to_owned(), false);
    let (symbol, has_result) = m.lookup(&"greet".to_owned()).unwrap();
    assert_eq!(symbol, "greet_1");
    assert!(has_result);
    assert!(m.lookup(&"missing".to_owned()).is_none());
}

#[test]
fn tokenize_skips_comments_and_keeps_strings() {
    let toks = tokenize("(module ;; line\n (; block (; nested ;) ;) \"a b\\\"c\")").unwrap();
    assert_eq!(toks.len(), 4);
    assert!(matches!(&toks[0], Tok::LParen));
    match &toks[1] {
        Tok::Atom(a) => assert_eq!(a, "module"),
        _ => panic!("expected an atom"),
    }
    match &toks[2] {
        Tok::Quoted(q) => assert_eq!(q, "a b\\\"c"),
        _ => panic!("expected a quoted string"),
    }
    assert!(matches!(&toks[3], Tok::RParen));
}

#[test]
fn tokenize_reports_unterminated_quote() {
    assert!(matches!(
        tokenize("(\"abc"),
        Err(AdaptError::UnterminatedQuote { pos: 1 })
    ));
}

#[test]
fn tokenize_reports_unterminated_comment() {
    assert!(matches!(
        tokenize("(; never closed"),
        Err(AdaptError::UnterminatedComment { pos: 0 })
    ));
}

#[test]
fn tokenize_reports_stray_semicolon() {
    assert!(matches!(tokenize("( ; )"), Err(AdaptError::StrayChar { pos: 2 })));
}

#[test]
fn parse_refuses_text_without_module() {
    let toks = tokenize("(func $f)").unwrap();
    assert!(matches!(parse_module(toks), Err(AdaptError::NotAModule)));
}

#[test]
fn transform_refuses_module_without_start_export() {
    let toks = tokenize("(module (func $f))").unwrap();
    let tree = parse_module(toks).unwrap();
    let symbols = SymbolMap::new();
    let catalog = ShimCatalog::standard().unwrap();
    assert!(matches!(
        transform(tree, &symbols, catalog),
        Err(AdaptError::MissingStart)
    ));
}

fn demo_symbols() -> SymbolMap {
    let mut m = SymbolMap::new();
    m.insert("greet".to_owned(), "greet".to_owned(), true);
    m.insert("quiet".to_owned(), "quiet".to_owned(), false);
    m
}

const DEMO_WAT: &str = "(module \
 (import \"spectest\" \"print_i32\" (func $print (param i32))) \
 (import \"host\" \"clock\" (func $clock (result i32))) \
 (memory $m (export \"moonbit.memory\") 1) \
 (func $greet (export \"ns::greet\") (result i32) (i32.const 7)) \
 (func $quiet (export \"ns::quiet\") (result i32) (i32.const 8)) \
 (func $free (export \"plain\") (result i32) (i32.const 9)) \
 (func $go nop) \
 (export \"_start\" (func $go)) \
)";

fn transformed_demo() -> ModuleTree {
    let toks = tokenize(DEMO_WAT).unwrap();
    let tree = parse_module(toks).unwrap();
    let symbols = demo_symbols();
    let catalog = ShimCatalog::standard().unwrap();
    transform(tree, &symbols, catalog).unwrap()
}

#[test]
fn spectest_import_dropped_other_imports_kept() {
    let out = transformed_demo();
    let mut modules: Vec<String> = Vec::new();
    for f in &out.fields {
        if let Field::Import { module, .. } = f {
            modules.push(module.clone());
        }
    }
    assert_eq!(modules, vec!["host".to_owned()]);
}

#[test]
fn memory_renamed_to_canonical_name() {
    let out = transformed_demo();
    let mut seen = false;
    for f in &out.fields {
        if let Field::Memory { exports, .. } = f {
            assert_eq!(exports.len(), 1);
            assert_eq!(exports[0], "memory");
            seen = true;
        }
    }
    assert!(seen);
}

#[test]
fn memory_with_other_name_left_alone() {
    let toks = tokenize(
        "(module (memory (export \"other.memory\") 1) (func $go) (export \"_start\" (func $go)))",
    )
    .unwrap();
    let tree = parse_module(toks).unwrap();
    let symbols = SymbolMap::new();
    let catalog = ShimCatalog::standard().unwrap();
    let out = transform(tree, &symbols, catalog).unwrap();
    let mut seen = false;
    for f in &out.fields {
        if let Field::Memory { exports, .. } = f {
            assert_eq!(exports[0], "other.memory");
            seen = true;
        }
    }
    assert!(seen);
}

#[test]
fn mapped_exports_renamed_unmapped_pass_through() {
    let out = transformed_demo();
    let mut func_exports: Vec<String> = Vec::new();
    for f in &out.fields {
        if let Field::Func(ff) = f {
            for n in &ff.exports {
                func_exports.push(n.clone());
            }
        }
    }
    assert_eq!(
        func_exports,
        vec!["greet".to_owned(), "quiet".to_owned(), "plain".to_owned()]
    );
}

#[test]
fn arity_defect_corrected_for_mapped_void_function() {
    let out = transformed_demo();
    for f in &out.fields {
        if let Field::Func(ff) = f {
            if ff.exports.iter().any(|n| n == "quiet") {
                // declared result removed, one value-discarding instruction appended
                assert!(ff.results.is_empty());
                match ff.body.last().unwrap() {
                    Tok::Atom(a) => assert_eq!(a, "drop"),
                    _ => panic!("expected a drop instruction at the end"),
                }
                return;
            }
        }
    }
    panic!("the mapped void function is gone");
}

#[test]
fn declared_result_kept_for_returning_function() {
    let out = transformed_demo();
    for f in &out.fields {
        if let Field::Func(ff) = f {
            if ff.exports.iter().any(|n| n == "greet") {
                assert_eq!(ff.results, vec!["i32".to_owned()]);
                return;
            }
        }
    }
    panic!("the returning function is gone");
}

#[test]
fn start_export_becomes_start_reference() {
    let out = transformed_demo();
    for f in &out.fields {
        if let Field::Export(e) = f {
            assert_ne!(e.name, "_start");
        }
    }
    let starts: Vec<&Field> = out
        .fields
        .iter()
        .filter(|f| matches!(f, Field::Start { .. }))
        .collect();
    assert_eq!(starts.len(), 1);
    match out.fields.last().unwrap() {
        Field::Start { index } => assert_eq!(index, "$go"),
        _ => panic!("the start reference must stand last"),
    }
}

#[test]
fn no_shims_injected_without_calls() {
    let out = transformed_demo();
    assert!(!out.fields.iter().any(|f| matches!(f, Field::Shim { .. })));
}

#[test]
fn only_called_shims_injected_once() {
    let toks = tokenize(
        "(module \
         (func $a (call $rael.memory_copy (i32.const 0) (i32.const 0) (i32.const 0))) \
         (func $b (call $rael.memory_copy (i32.const 1) (i32.const 1) (i32.const 1))) \
         (func $c (call $rael.malloc (i32.const 16)) drop) \
         (func $go nop) \
         (export \"_start\" (func $go)) \
        )",
    )
    .unwrap();
    let tree = parse_module(toks).unwrap();
    let symbols = SymbolMap::new();
    let catalog = ShimCatalog::standard().unwrap();
    let out = transform(tree, &symbols, catalog).unwrap();
    let mut shim_names: Vec<String> = Vec::new();
    for f in &out.fields {
        if let Field::Shim { name, .. } = f {
            shim_names.push(name.clone());
        }
    }
    assert_eq!(
        shim_names,
        vec!["rael.memory_copy".to_owned(), "rael.malloc".to_owned()]
    );
}

#[test]
fn unknown_qualified_export_passes_through() {
    let toks = tokenize(
        "(module (func $u (export \"ns::unknown\") (result i32) (i32.const 1)) \
         (func $go nop) (export \"_start\" (func $go)))",
    )
    .unwrap();
    let tree = parse_module(toks).unwrap();
    let symbols = demo_symbols();
    let catalog = ShimCatalog::standard().unwrap();
    let out = transform(tree, &symbols, catalog).unwrap();
    let mut seen = false;
    for f in &out.fields {
        if let Field::Func(ff) = f {
            if !ff.exports.is_empty() {
                assert_eq!(ff.exports[0], "ns::unknown");
                assert_eq!(ff.results, vec!["i32".to_owned()]);
                seen = true;
            }
        }
    }
    assert!(seen);
}

#[test]
fn two_declared_results_block_the_arity_fix() {
    let toks = tokenize(
        "(module (func $q (export \"ns::quiet\") (result i32 i32) (i32.const 1) (i32.const 2)) \
         (func $go nop) (export \"_start\" (func $go)))",
    )
    .unwrap();
    let tree = parse_module(toks).unwrap();
    let symbols = demo_symbols();
    let catalog = ShimCatalog::standard().unwrap();
    let out = transform(tree, &symbols, catalog).unwrap();
    for f in &out.fields {
        if let Field::Func(ff) = f {
            if ff.exports.iter().any(|n| n == "quiet") {
                // the defect correction applies only to a single declared result
                assert_eq!(ff.results, vec!["i32".to_owned(), "i32".to_owned()]);
                assert!(!matches!(ff.body.last(), Some(Tok::Atom(a)) if a == "drop"));
                return;
            }
        }
    }
    panic!("the mapped function is gone");
}

#[test]
fn numeric_call_index_activates_nothing() {
    let toks = tokenize(
        "(module (func $a call 3) (func $go nop) (export \"_start\" (func $go)))",
    )
    .unwrap();
    let tree = parse_module(toks).unwrap();
    let symbols = SymbolMap::new();
    let catalog = ShimCatalog::standard().unwrap();
    let out = transform(tree, &symbols, catalog).unwrap();
    assert!(!out.fields.iter().any(|f| matches!(f, Field::Shim { .. })));
}

#[test]
fn flat_call_activates_a_shim() {
    let toks = tokenize(
        "(module (func $a (param $p i32) local.get $p call $printc) \
         (func $go nop) (export \"_start\" (func $go)))",
    )
    .unwrap();
    let tree = parse_module(toks).unwrap();
    let symbols = SymbolMap::new();
    let catalog = ShimCatalog::standard().unwrap();
    let out = transform(tree, &symbols, catalog).unwrap();
    let shim_names: Vec<&str> = out
        .fields
        .iter()
        .filter_map(|f| match f {
            Field::Shim { name, .. } => Some(name.as_str()),
            _ => None,
        })
        .collect();
    assert_eq!(shim_names, vec!["printc"]);
}

#[test]
fn memory_identifier_survives_the_rename() {
    let out = transformed_demo();
    for f in &out.fields {
        if let Field::Memory { head, .. } = f {
            assert_eq!(head.len(), 1);
            match &head[0] {
                Tok::Atom(a) => assert_eq!(a, "$m"),
                _ => panic!("expected the memory identifier"),
            }
        }
    }
}

#[test]
fn catalog_holds_the_fixed_templates() {
    let catalog = ShimCatalog::standard().unwrap();
    let names: Vec<String> = catalog.shims.iter().map(|s| s.name.clone()).collect();
    assert_eq!(
        names,
        vec![
            "rael.memory_copy".to_owned(),
            "rael.load_i32".to_owned(),
            "rael.load_i64".to_owned(),
            "rael.bytes_data".to_owned(),
            "moonbit.string_data".to_owned(),
            "printc".to_owned(),
            "rael.malloc".to_owned(),
        ]
    );
    for s in &catalog.shims {
        assert!(!s.toks.is_empty());
    }
}

#[test]
fn render_prints_the_tree_exactly() {
    let tree = ModuleTree { id: None, fields: Vec::new() };
    assert_eq!(render_module(&tree), " ( module )");
    let toks = tokenize("(module $m (func $go nop) (export \"_start\" (func $go)))").unwrap();
    let tree = parse_module(toks).unwrap();
    assert_eq!(
        render_module(&tree),
        " ( module $m ( func $go nop ) ( export \"_start\" ( func $go ) ) )"
    );
}

#[test]
fn rendered_text_reads_back_to_the_same_tree() {
    let out = transformed_demo();
    let text = render_module(&out);
    let toks = tokenize(&text).unwrap();
    let back = parse_module(toks).unwrap();
    assert_eq!(render_module(&back), text);
}

#[test]
fn end_to_end_scenario_on_a_minimal_module() {
    let toks = tokenize(
        "(module \
         (memory (export \"moonbit.memory\") 1) \
         (func $g (export \"ns::greet\") (result i32) (i32.const 7)) \
         (func $noop nop) \
         (export \"_start\" (func $noop)) \
        )",
    )
    .unwrap();
    let tree = parse_module(toks).unwrap();
    let mut symbols = SymbolMap::new();
    symbols.insert("greet".to_owned(), "greet".to_owned(), true);
    let catalog = ShimCatalog::standard().unwrap();
    let out = transform(tree, &symbols, catalog).unwrap();

    let mut memory_names: Vec<String> = Vec::new();
    let mut func_exports: Vec<String> = Vec::new();
    let mut greet_results: Vec<String> = Vec::new();
    let mut shim_count = 0;
    for f in &out.fields {
        match f {
            Field::Memory { exports, .. } => memory_names.extend(exports.iter().cloned()),
            Field::Func(ff) => {
                func_exports.extend(ff.exports.iter().cloned());
                if ff.exports.iter().any(|n| n == "greet") {
                    greet_results = ff.results.clone();
                }
            }
            Field::Shim { .. } => shim_count += 1,
            _ => {}
        }
    }
    assert_eq!(memory_names, vec!["memory".to_owned()]);
    assert_eq!(func_exports, vec!["greet".to_owned()]);
    assert_eq!(greet_results, vec!["i32".to_owned()]);
    assert_eq!(shim_count, 0);
    match out.fields.last().unwrap() {
        Field::Start { index } => assert_eq!(index, "$noop"),
        _ => panic!("expected the start reference last"),
    }
}

#[test]
fn componentize_with_harvested_symbols_exports_canonical_name() {
    let mut resolve = wit_parser::Resolve::default();
    let pkg = resolve
        .push_str(
            "adapter.wit",
            "package test:adapter;\n\nworld hello {\n  export say-hello: func();\n}\n",
        )
        .unwrap();
    let world = resolve.select_world(&[pkg], None).unwrap();
    let model = WorldExports { funcs: vec![plain_func("say-hello", false)] };
    let symbols = resolve_symbols(&model);
    // the compiler's module exports its internal qualified name
    let wat = "(module \
        (memory (export \"moonbit.memory\") 1) \
        (func $h (export \"pkg::say_hello\") nop) \
        (func $go nop) \
        (export \"_start\" (func $go)) \
       )";
    let bytes = componentize_mbt::componentize(wat, &symbols, &resolve, world).unwrap();
    assert_eq!(&bytes[0..4], b"\0asm");
    assert_eq!(bytes[6], 0x01);
    assert_eq!(bytes[7], 0x00);
}

#[test]
fn componentize_reports_text_and_start_errors() {
    let mut resolve = wit_parser::Resolve::default();
    let pkg = resolve
        .push_str("adapter.wit", "package test:adapter;\n\nworld empty {\n}\n")
        .unwrap();
    let world = resolve.select_world(&[pkg], None).unwrap();
    let symbols = SymbolMap::new();
    assert!(matches!(
        componentize_mbt::componentize("(module \"broken", &symbols, &resolve, world),
        Err(AdaptError::UnterminatedQuote { .. })
    ));
    assert!(matches!(
        componentize_mbt::componentize("(func $f)", &symbols, &resolve, world),
        Err(AdaptError::NotAModule)
    ));
    assert!(matches!(
        componentize_mbt::componentize("(module (func $f))", &symbols, &resolve, world),
        Err(AdaptError::MissingStart)
    ));
}

#[test]
fn componentize_refuses_a_foreign_world_identifier() {
    // a world id harvested from one resolver, paired with another
    let mut resolve_a = wit_parser::Resolve::default();
    let pkg_a = resolve_a
        .push_str("a.wit", "package test:left;\n\nworld one {\n}\n")
        .unwrap();
    let world_a = resolve_a.select_world(&[pkg_a], None).unwrap();
    let resolve_b = wit_parser::Resolve::default();
    let symbols = SymbolMap::new();
    let wat = "(module (func $go nop) (export \"_start\" (func $go)))";
    assert!(matches!(
        componentize_mbt::componentize(wat, &symbols, &resolve_b, world_a),
        Err(AdaptError::Embed(_))
    ));
}

#[test]
fn componentize_produces_a_component_binary() {
    let mut resolve = wit_parser::Resolve::default();
    let pkg = resolve
        .push_str("adapter.wit", "package test:adapter;\n\nworld empty {\n}\n")
        .unwrap();
    let world = resolve.select_world(&[pkg], None).unwrap();
    let symbols = SymbolMap::new();
    let wat = "(module \
        (memory (export \"moonbit.memory\") 1) \
        (func $go nop) \
        (export \"_start\" (func $go)) \
       )";
    let bytes = componentize_mbt::componentize(wat, &symbols, &resolve, world).unwrap();
    // component binaries open with the wasm magic and the component layer
    assert_eq!(&bytes[0..4], b"\0asm");
    assert_eq!(bytes[6], 0x01);
    assert_eq!(bytes[7], 0x00);
}
