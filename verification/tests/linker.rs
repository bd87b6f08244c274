use wasm_bridge::imports::Imports;
use wasm_bridge::linker::{Engine, Linker};
use wasm_bridge::wasi::{environment, monotonic_clock};

type Creator = Box<dyn Fn(u32) -> (String, u32)>;

fn creator(tag: &'static str) -> Creator {
    Box::new(move |h: u32| (format!("{}:{}", tag, h), h + 1))
}

#[test]
fn imports_hold_registered_functions() {
    let mut linker: Linker<Creator> = Linker::new(&Engine);
    linker
        .func_wrap("env", "add", creator("add"))
        .unwrap()
        .func_wrap("env", "sub", creator("sub"))
        .unwrap()
        .func_wrap("math", "add", creator("math-add"))
        .unwrap();
    let (imports, keep) = linker.prepare_imports(&7u32);
    assert_eq!(keep, vec![8, 8, 8]);
    assert_eq!(imports.get("env", "add"), Some(&"add:7".to_string()));
    assert_eq!(imports.get("env", "sub"), Some(&"sub:7".to_string()));
    assert_eq!(imports.get("math", "add"), Some(&"math-add:7".to_string()));
    assert_eq!(imports.get("math", "sub"), None);
    assert_eq!(imports.get("other", "add"), None);
    let namespaces = imports.into_namespaces();
    assert_eq!(namespaces.len(), 2);
    assert_eq!(namespaces[0].0, "env");
    assert_eq!(namespaces[0].1.len(), 2);
    assert_eq!(namespaces[1].0, "math");
}

#[test]
fn last_registration_wins() {
    let mut linker: Linker<Creator> = Linker::new(&Engine);
    linker.func_wrap("env", "f", creator("first")).unwrap();
    linker.func_wrap("env", "f", creator("second")).unwrap();
    let (imports, keep) = linker.prepare_imports(&1u32);
    assert_eq!(keep.len(), 2);
    assert_eq!(imports.get("env", "f"), Some(&"second:1".to_string()));
    assert_eq!(imports.into_namespaces()[0].1.len(), 1);
}

#[test]
fn empty_linker_gives_empty_imports() {
    let linker: Linker<Creator> = Linker::new(&Engine);
    let (imports, keep) = linker.prepare_imports(&0u32);
    assert!(keep.is_empty());
    assert!(imports.into_namespaces().is_empty());
}

#[test]
fn import_object_set_and_get() {
    let mut imports: Imports<u8> = Imports::new();
    assert_eq!(imports.find("a"), None);
    let a = imports.insert_namespace("a");
    assert_eq!(imports.find("a"), Some(a));
    let b = imports.insert_namespace("b");
    imports.set(a, "x", 1);
    imports.set(b, "x", 2);
    imports.set(a, "x", 3);
    assert_eq!(imports.get("a", "x"), Some(&3));
    assert_eq!(imports.get("b", "x"), Some(&2));
    assert_eq!(imports.get("b", "y"), None);
}

#[test]
fn wasi_interfaces_are_registered() {
    let mut linker: Linker<Creator> = Linker::new(&Engine);
    environment::add_to_linker(&mut linker, creator("env-vars")).unwrap();
    monotonic_clock::add_to_linker(&mut linker, creator("clock")).unwrap();
    let (imports, _) = linker.prepare_imports(&3u32);
    assert_eq!(
        imports.get("wasi:cli/environment@0.2.0", "get-environment"),
        Some(&"env-vars:3".to_string())
    );
    assert_eq!(
        imports.get("wasi:clocks/monotonic-clock@0.2.0", "now"),
        Some(&"clock:3".to_string())
    );
}

#[test]
fn repeated_lookup_finds_the_same_namespace() {
    let mut imports: Imports<u8> = Imports::new();
    let a = imports.insert_namespace("a");
    let b = imports.insert_namespace("b");
    assert_eq!((a, b), (0, 1));
    assert_eq!(imports.find("b"), Some(b));
    assert_eq!(imports.find("b"), Some(b));
    assert_eq!(imports.find("a"), Some(a));
}

#[test]
fn js_clock_resolution_is_one_millisecond() {
    assert_eq!(monotonic_clock::js_clock_resolution(), 1_000_000);
}

#[test]
fn namespaces_and_names_come_out_in_creation_order() {
    let mut imports: Imports<u8> = Imports::new();
    let z = imports.insert_namespace("z");
    let a = imports.insert_namespace("a");
    imports.set(z, "second", 1);
    imports.set(z, "first", 2);
    imports.set(a, "only", 3);
    imports.set(z, "second", 4);
    let out = imports.into_namespaces();
    assert_eq!(out[0].0, "z");
    assert_eq!(out[1].0, "a");
    let names: Vec<&str> = out[0].1.iter().map(|(n, _)| n.as_str()).collect();
    assert_eq!(names, vec!["second", "first"]);
    assert_eq!(out[0].1[0].1, 4);
    assert_eq!(out[1].1[0].0, "only");
}
