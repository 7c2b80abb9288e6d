use seru::language::parser::Parser;
use seru::language::ast::{ComponentDeclaration, TopDeclaration};
use seru::render::args::Args;
use seru::render::registry::NativeComponentRegistry;
use seru::runtime::env::{NameTable, Scope};
use seru::runtime::{
    calc_index, eval_comp_decl, index_array, index_string, single_root, validate_component_args,
    RuntimeError,
};

fn component(src: &str) -> ComponentDeclaration {
    let prog = Parser::from_src(src).unwrap().parse().unwrap();
    match prog.top_declarations.into_iter().next().unwrap() {
        TopDeclaration::ComponentDeclaration(c) => c,
        other => panic!("{:?}", other),
    }
}

#[test]
fn calc_index_from_both_ends() {
    assert_eq!(calc_index(0, 3), Ok(0));
    assert_eq!(calc_index(2, 3), Ok(2));
    assert_eq!(calc_index(-1, 3), Ok(2));
    assert_eq!(calc_index(-3, 3), Ok(0));
    assert_eq!(calc_index(3, 3), Err(RuntimeError::IndexOutOfBounds));
    assert_eq!(calc_index(-4, 3), Err(RuntimeError::IndexOutOfBounds));
    assert_eq!(calc_index(0, 0), Err(RuntimeError::IndexOutOfBounds));
}

#[test]
fn index_strings_and_arrays() {
    assert_eq!(index_string("abc", -1), Ok('c'));
    assert_eq!(index_string("abc", 0), Ok('a'));
    assert_eq!(index_string("abc", 3), Err(RuntimeError::IndexOutOfBounds));
    let v = vec![10, 20, 30];
    assert_eq!(index_array(&v, 1), Ok(&20));
    assert_eq!(index_array(&v, -3), Ok(&10));
    assert_eq!(index_array(&v, -4), Err(RuntimeError::IndexOutOfBounds));
}

#[test]
fn component_arguments_are_checked() {
    let c = component("component Card(title, size = 1): Slot()");
    assert_eq!(validate_component_args(&c, &vec!["title".to_string()]), Ok(()));
    assert_eq!(
        validate_component_args(&c, &vec!["title".to_string(), "size".to_string()]),
        Ok(())
    );
    assert_eq!(
        validate_component_args(&c, &vec!["title".to_string(), "color".to_string()]),
        Err(RuntimeError::UnknownArgument("color".to_string()))
    );
    assert_eq!(
        validate_component_args(&c, &vec!["size".to_string()]),
        Err(RuntimeError::MissingArgument("title".to_string()))
    );
    assert_eq!(
        validate_component_args(&c, &vec!["color".to_string()]),
        Err(RuntimeError::UnknownArgument("color".to_string()))
    );
}

#[test]
fn one_root_node() {
    assert_eq!(single_root::<u8>(vec![]), Ok(None));
    assert_eq!(single_root(vec![7]), Ok(Some(7)));
    assert_eq!(single_root(vec![1, 2]), Err(RuntimeError::MultipleRootNodes));
}

#[test]
fn name_table_reads_back_writes() {
    let mut t: NameTable<i32> = NameTable::new();
    assert_eq!(t.get("a"), None);
    t.insert("a", 1);
    t.insert("b", 2);
    t.insert("a", 3);
    assert_eq!(t.get("a"), Some(&3));
    assert_eq!(t.get("b"), Some(&2));
    assert!(t.contains("b"));
    assert_eq!(t.remove("a"), Some(3));
    assert_eq!(t.remove("a"), None);
    assert_eq!(t.any_name(), Some("b".to_string()));
    t.remove("b");
    assert_eq!(t.any_name(), None);
}

#[test]
fn scopes_nest() {
    let mut s: Scope<i32> = Scope::new();
    s.set("x", 1);
    s.set("y", 2);
    s.new_child();
    assert_eq!(s.depth(), 2);
    assert_eq!(s.get("x"), Some(&1));
    s.set("x", 10);
    s.set("z", 3);
    assert_eq!(s.get("x"), Some(&10));
    assert_eq!(s.get_within(1, "x"), Some(&1));
    assert_eq!(s.get_within(1, "z"), None);
    s.set_root("w", 4);
    assert_eq!(s.get("w"), Some(&4));
    s.close_child();
    assert_eq!(s.get("x"), Some(&1));
    assert_eq!(s.get("z"), None);
    assert_eq!(s.get("y"), Some(&2));
}

#[test]
fn arguments_are_taken_once() {
    let mut t = NameTable::new();
    t.insert("text", "hi");
    t.insert("width", "10");
    let mut args = Args::new(t);
    assert_eq!(args.take("text"), Some("hi"));
    assert_eq!(args.take("text"), None);
    assert_eq!(args.take_required("height"), Err(RuntimeError::MissingArgument("height".to_string())));
    assert_eq!(args.finish(), Err(RuntimeError::UnknownArgument("width".to_string())));

    let mut t = NameTable::new();
    t.insert("src", 1);
    let mut args = Args::new(t);
    assert_eq!(args.take_required("src"), Ok(1));
    assert_eq!(args.finish(), Ok(()));
}

#[test]
fn registry_refuses_a_second_registration() {
    let mut r: NativeComponentRegistry<u8> = NativeComponentRegistry::new();
    assert_eq!(r.register("Box", 1), Ok(()));
    assert_eq!(r.register("Box", 2), Err(RuntimeError::AlreadyRegisteredComponent("Box".to_string())));
    assert!(r.has_component("Box"));
    assert!(!r.has_component("Text"));
    assert_eq!(r.get("Box"), Ok(&1));
    assert_eq!(r.get("Text"), Err(RuntimeError::CannotFindNativeComponent("Text".to_string())));
}

#[test]
fn components_are_declared_once() {
    let mut natives: NativeComponentRegistry<u8> = NativeComponentRegistry::new();
    natives.register("Text", 0).unwrap();
    let mut components = NameTable::new();
    assert_eq!(eval_comp_decl(&natives, &mut components, component("component Card(): Slot()")), Ok(()));
    assert!(components.contains("Card"));
    assert_eq!(
        eval_comp_decl(&natives, &mut components, component("component Card(x): Slot()")),
        Err(RuntimeError::AlreadyDeclaredComponent("Card".to_string()))
    );
    assert_eq!(components.get("Card").unwrap().arg_declarations.len(), 0);
    assert_eq!(
        eval_comp_decl(&natives, &mut components, component("component Text(): Slot()")),
        Err(RuntimeError::AlreadyDeclaredComponent("Text".to_string()))
    );
}
