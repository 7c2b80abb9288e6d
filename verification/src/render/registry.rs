use vstd::prelude::*;

use crate::runtime::env::NameTable;
use crate::runtime::RuntimeError;

verus! {

/// The components that the renderer provides itself, by name. `C` is what draws a component.
pub struct NativeComponentRegistry<C> {
    components: NameTable<C>,
}

impl<C> View for NativeComponentRegistry<C> {
    type V = Map<Seq<char>, C>;

    closed spec fn view(&self) -> Map<Seq<char>, C> {
        self.components@
    }
}

impl<C> NativeComponentRegistry<C> {
    /// The invariant of the registry: a valid table.
    pub closed spec fn wf(&self) -> bool {
        self.components.wf()
    }

    /// A registry with no components.
    pub fn new() -> (r: Self)
        ensures
            r.wf(),
            r@ == Map::<Seq<char>, C>::empty(),
    {
        NativeComponentRegistry { components: NameTable::new() }
    }

    /// Whether a component is registered under `name`.
    pub fn has_component(&self, name: &str) -> (r: bool)
        requires
            self.wf(),
        ensures
            r == self@.contains_key(name@),
    {
        self.components.contains(name)
    }

    /// Registers `component` under `name`, which must be free; a taken name is refused and the
    /// registry left as it was.
    pub fn register(&mut self, name: &str, component: C) -> (r: Result<(), RuntimeError>)
        requires
            old(self).wf(),
        ensures
            final(self).wf(),
            old(self)@.contains_key(name@) ==> final(self)@ == old(self)@ && (r matches Err(
                RuntimeError::AlreadyRegisteredComponent(n),
            ) && n@ == name@),
            !old(self)@.contains_key(name@) ==> final(self)@ == old(self)@.insert(name@, component)
                && r is Ok,
    {
        if self.components.contains(name) {
            return Err(RuntimeError::AlreadyRegisteredComponent(name.to_owned()));
        }
        self.components.insert(name, component);
        Ok(())
    }

    /// The component registered under `name`.
    pub fn get(&self, name: &str) -> (r: Result<&C, RuntimeError>)
        requires
            self.wf(),
        ensures
            self@.contains_key(name@) ==> (r matches Ok(c) && *c == self@[name@]),
            !self@.contains_key(name@) ==> (r matches Err(RuntimeError::CannotFindNativeComponent(n))
                && n@ == name@),
    {
        match self.components.get(name) {
            Some(c) => Ok(c),
            None => Err(RuntimeError::CannotFindNativeComponent(name.to_owned())),
        }
    }
}

} // verus!
