use vstd::prelude::*;

use crate::runtime::env::NameTable;
use crate::runtime::RuntimeError;

verus! {

/// The arguments given to a native component, taken one by one as the component reads them.
pub struct Args<T> {
    inner: NameTable<T>,
}

impl<T> View for Args<T> {
    type V = Map<Seq<char>, T>;

    closed spec fn view(&self) -> Map<Seq<char>, T> {
        self.inner@
    }
}

impl<T> Args<T> {
    /// The invariant of the arguments: a valid table.
    pub closed spec fn wf(&self) -> bool {
        self.inner.wf()
    }

    /// The arguments `inner`.
    pub fn new(inner: NameTable<T>) -> (a: Self)
        requires
            inner.wf(),
        ensures
            a.wf(),
            a@ == inner@,
    {
        Args { inner }
    }

    /// Takes the argument `name`, if it was given.
    pub fn take(&mut self, name: &str) -> (r: Option<T>)
        requires
            old(self).wf(),
        ensures
            final(self).wf(),
            final(self)@ == old(self)@.remove(name@),
            r == (if old(self)@.contains_key(name@) {
                Some(old(self)@[name@])
            } else {
                None::<T>
            }),
    {
        self.inner.remove(name)
    }

    /// Takes the argument `name`, which must have been given.
    pub fn take_required(&mut self, name: &str) -> (r: Result<T, RuntimeError>)
        requires
            old(self).wf(),
        ensures
            final(self).wf(),
            final(self)@ == old(self)@.remove(name@),
            old(self)@.contains_key(name@) ==> r == Ok::<T, RuntimeError>(old(self)@[name@]),
            !old(self)@.contains_key(name@) ==> (r matches Err(RuntimeError::MissingArgument(n))
                && n@ == name@),
    {
        match self.take(name) {
            Some(v) => Ok(v),
            None => Err(RuntimeError::MissingArgument(name.to_owned())),
        }
    }

    /// Succeeds when every argument has been taken; otherwise names one that was not.
    pub fn finish(self) -> (r: Result<(), RuntimeError>)
        requires
            self.wf(),
        ensures
            r is Ok <==> self@.dom() == Set::<Seq<char>>::empty(),
            r is Err ==> (r matches Err(RuntimeError::UnknownArgument(n)) && self@.contains_key(n@)),
    {
        match self.inner.any_name() {
            Some(n) => Err(RuntimeError::UnknownArgument(n)),
            None => Ok(()),
        }
    }
}

} // verus!
