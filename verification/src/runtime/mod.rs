pub mod env;
pub mod utils;

use vstd::prelude::*;

use crate::language::ast::{arg_decls_view, ComponentDeclaration, SArgDecl};
use crate::language::text::{byte_len, chars_of, lemma_byte_len_is_utf8_len, strings_view};
use crate::render::registry::NativeComponentRegistry;
use crate::runtime::env::NameTable;

verus! {

/// Errors of evaluation that the library decides.
#[derive(Debug, Clone, PartialEq, Eq)]
pub enum RuntimeError {
    IndexOutOfBounds,
    UnknownArgument(String),
    MissingArgument(String),
    /// A component of this name is declared already, by the template or natively.
    AlreadyDeclaredComponent(String),
    /// A native component of this name is registered already.
    AlreadyRegisteredComponent(String),
    /// No native component has this name.
    CannotFindNativeComponent(String),
    /// A component rendered to more than one node where one root is needed.
    MultipleRootNodes,
}

pub open spec fn spec_calc_index(idx: int, len: int) -> Option<int> {
    let t = if idx < 0 {
        len + idx
    } else {
        idx
    };
    if 0 <= t < len {
        Some(t)
    } else {
        None
    }
}

/// The position that the index `idx` designates in a sequence of length `len`: counted from
/// the start when `idx` is not negative, from the end when it is.
pub fn calc_index(idx: isize, len: usize) -> (r: Result<usize, RuntimeError>)
    requires
        len <= isize::MAX,
    ensures
        match spec_calc_index(idx as int, len as int) {
            Some(t) => r == Ok::<usize, RuntimeError>(t as usize),
            None => r == Err::<usize, RuntimeError>(RuntimeError::IndexOutOfBounds),
        },
{
    let target_idx: isize = if idx < 0 {
        (len as isize) + idx
    } else {
        idx
    };
    if target_idx >= 0 && (target_idx as usize) < len {
        return Ok(target_idx as usize);
    }
    Err(RuntimeError::IndexOutOfBounds)
}

/// An index designates a position exactly when it lies within `-len..len`; that position is the
/// index itself, or the index counted back from the end.
pub proof fn lemma_index_in_range(i: int, len: int)
    requires
        0 <= len,
    ensures
        spec_calc_index(i, len) is Some <==> -len <= i < len,
        spec_calc_index(i, len) matches Some(t) ==> 0 <= t < len && (t == i || t == i + len),
{
}

/// An index from the end designates the same position as the index from the start that it
/// stands for.
pub proof fn lemma_negative_index(i: int, len: int)
    requires
        0 <= i < len,
    ensures
        spec_calc_index(i - len, len) == spec_calc_index(i, len),
        spec_calc_index(i, len) == Some(i),
{
}

/// Whether `name` is declared among `decls`.
pub open spec fn is_declared(decls: Seq<SArgDecl>, name: Seq<char>) -> bool {
    exists|i: int| 0 <= i < decls.len() && #[trigger] decls[i].name == name
}

/// Whether `name` is among the given argument names.
pub open spec fn is_given(names: Seq<Seq<char>>, name: Seq<char>) -> bool {
    exists|j: int| 0 <= j < names.len() && #[trigger] names[j] == name
}

/// Every given name is declared, and every declaration without a default is given.
pub open spec fn args_valid(decls: Seq<SArgDecl>, names: Seq<Seq<char>>) -> bool {
    &&& forall|j: int| 0 <= j < names.len() ==> is_declared(decls, #[trigger] names[j])
    &&& forall|k: int|
        0 <= k < decls.len() && (#[trigger] decls[k]).default is None ==> is_given(names, decls[k].name)
}

fn declared(decls: &Vec<crate::language::ast::ArgDeclaration>, name: &String) -> (r: bool)
    ensures
        r == is_declared(arg_decls_view(decls@), name@),
{
    let ghost v = arg_decls_view(decls@);
    for i in 0..decls.len()
        invariant
            v == arg_decls_view(decls@),
            forall|k: int| 0 <= k < i ==> #[trigger] v[k].name != name@,
    {
        if decls[i].name == *name {
            assert(v[i as int].name == name@);
            return true;
        }
    }
    false
}

fn given(names: &Vec<String>, name: &String) -> (r: bool)
    ensures
        r == is_given(strings_view(names@), name@),
{
    let ghost v = strings_view(names@);
    for j in 0..names.len()
        invariant
            v == strings_view(names@),
            forall|k: int| 0 <= k < j ==> #[trigger] v[k] != name@,
    {
        if names[j] == *name {
            assert(v[j as int] == name@);
            return true;
        }
    }
    false
}

/// Checks the names of the arguments given to a component against its declarations: the first
/// given name that is not declared is an unknown argument; failing that, the first declaration
/// without a default that is not given is a missing argument.
pub fn validate_component_args(component: &ComponentDeclaration, args: &Vec<String>) -> (r: Result<
    (),
    RuntimeError,
>)
    ensures
        ({
            let decls = arg_decls_view(component.arg_declarations@);
            let names = strings_view(args@);
            &&& r is Ok <==> args_valid(decls, names)
            &&& r matches Err(RuntimeError::UnknownArgument(n)) ==> exists|j: int|
                0 <= j < names.len() && names[j] == n@ && !is_declared(decls, names[j]) && forall|
                    j2: int,
                | 0 <= j2 < j ==> is_declared(decls, #[trigger] names[j2])
            &&& r matches Err(RuntimeError::MissingArgument(n)) ==> (forall|j: int|
                0 <= j < names.len() ==> is_declared(decls, #[trigger] names[j])) && exists|k: int|
                0 <= k < decls.len() && decls[k].name == n@ && decls[k].default is None && !is_given(
                    names,
                    decls[k].name,
                ) && forall|k2: int|
                    0 <= k2 < k && (#[trigger] decls[k2]).default is None ==> is_given(names, decls[k2].name)
            &&& (r is Err ==> ((r matches Err(RuntimeError::UnknownArgument(_))) || (r matches Err(
                RuntimeError::MissingArgument(_),
            ))))
            &&& ((exists|j: int| 0 <= j < names.len() && !is_declared(decls, #[trigger] names[j]))
                ==> (r matches Err(RuntimeError::UnknownArgument(_))))
            &&& ((r is Err && forall|j: int| 0 <= j < names.len() ==> is_declared(decls, #[trigger] names[j]))
                ==> (r matches Err(RuntimeError::MissingArgument(_))))
        }),
{
    let ghost decls = arg_decls_view(component.arg_declarations@);
    let ghost names = strings_view(args@);
    for j in 0..args.len()
        invariant
            decls == arg_decls_view(component.arg_declarations@),
            names == strings_view(args@),
            forall|j2: int| 0 <= j2 < j ==> is_declared(decls, #[trigger] names[j2]),
    {
        if !declared(&component.arg_declarations, &args[j]) {
            let n = args[j].clone();
            assert(names[j as int] == n@);
            assert(!is_declared(decls, names[j as int]));
            return Err(RuntimeError::UnknownArgument(n));
        }
    }
    let n = component.arg_declarations.len();
    for k in 0..n
        invariant
            n == component.arg_declarations.len(),
            decls == arg_decls_view(component.arg_declarations@),
            names == strings_view(args@),
            forall|j: int| 0 <= j < names.len() ==> is_declared(decls, #[trigger] names[j]),
            forall|k2: int|
                0 <= k2 < k && (#[trigger] decls[k2]).default is None ==> is_given(names, decls[k2].name),
    {
        let d = &component.arg_declarations[k];
        assert(decls[k as int] == crate::language::ast::arg_decl_view(*d));
        if d.default.is_none() && !given(args, &d.name) {
            return Err(RuntimeError::MissingArgument(d.name.clone()));
        }
    }
    Ok(())
}

/// The character at the index `idx` of `s`. The index is checked against the byte length of
/// `s`, as the template language does, and then counts characters; where a byte index in range
/// passes the last character there is no character to give, and `requires` leaves it out.
pub fn index_string(s: &str, idx: isize) -> (r: Result<char, RuntimeError>)
    requires
        byte_len(s@) <= isize::MAX,
        spec_calc_index(idx as int, byte_len(s@) as int) matches Some(t) ==> t < s@.len(),
    ensures
        match spec_calc_index(idx as int, byte_len(s@) as int) {
            Some(t) => r == Ok::<char, RuntimeError>(s@[t]),
            None => r == Err::<char, RuntimeError>(RuntimeError::IndexOutOfBounds),
        },
{
    proof {
        lemma_byte_len_is_utf8_len(s@);
    }
    let t = calc_index(idx, s.len())?;
    let chars = chars_of(s);
    Ok(chars[t])
}

/// The element at the index `idx` of `values`: counted from the start when `idx` is not
/// negative, from the end when it is.
pub fn index_array<T>(values: &Vec<T>, idx: isize) -> (r: Result<&T, RuntimeError>)
    requires
        values@.len() <= isize::MAX,
    ensures
        match spec_calc_index(idx as int, values@.len() as int) {
            Some(t) => (r matches Ok(v) && *v == values@[t]),
            None => r matches Err(RuntimeError::IndexOutOfBounds),
        },
{
    let t = calc_index(idx, values.len())?;
    Ok(&values[t])
}

/// The root of a component's rendering: none for no node, the node for one, an error for more.
pub fn single_root<N>(nodes: Vec<N>) -> (r: Result<Option<N>, RuntimeError>)
    ensures
        nodes@.len() == 0 ==> r matches Ok(None),
        nodes@.len() == 1 ==> r == Ok::<Option<N>, RuntimeError>(Some(nodes@[0])),
        nodes@.len() > 1 ==> r matches Err(RuntimeError::MultipleRootNodes),
{
    if nodes.len() == 0 {
        Ok(None)
    } else if nodes.len() > 1 {
        Err(RuntimeError::MultipleRootNodes)
    } else {
        let mut nodes = nodes;
        Ok(nodes.pop())
    }
}

/// Declares the component `decl`, whose name must be neither that of a native component nor
/// that of a component declared before; a refused declaration changes nothing.
pub fn eval_comp_decl<C>(
    natives: &NativeComponentRegistry<C>,
    components: &mut NameTable<ComponentDeclaration>,
    decl: ComponentDeclaration,
) -> (r: Result<(), RuntimeError>)
    requires
        natives.wf(),
        old(components).wf(),
    ensures
        final(components).wf(),
        natives@.contains_key(decl.name@) || old(components)@.contains_key(decl.name@) ==> (r matches Err(
            RuntimeError::AlreadyDeclaredComponent(n),
        ) && n@ == decl.name@ && final(components)@ == old(components)@),
        !(natives@.contains_key(decl.name@) || old(components)@.contains_key(decl.name@)) ==> (r is Ok
            && final(components)@ == old(components)@.insert(decl.name@, decl)),
{
    if natives.has_component(decl.name.as_str()) || components.contains(decl.name.as_str()) {
        return Err(RuntimeError::AlreadyDeclaredComponent(decl.name));
    }
    let name = decl.name.clone();
    components.insert(name.as_str(), decl);
    Ok(())
}

} // verus!
