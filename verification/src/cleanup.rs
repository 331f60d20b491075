//! The scoped listener for filesystem-named sockets: the bound handle and
//! the path it occupies travel together, so that the owner can unlink the
//! path after releasing the handle.
use vstd::prelude::*;

verus! {

/// Binding a filesystem-named socket failed.
#[derive(Debug, Clone, Copy, PartialEq, Eq, Structural)]
pub struct BindError {}

/// Implemented by listener types that can bind to a filesystem path.
pub trait ListenerCleanupBind: Sized {
    fn bind(path: &Vec<u8>) -> Result<Self, BindError>;
}

/// A bound listener together with the filesystem path it occupies.
pub struct ListenerCleanup<T> {
    listener: T,
    path: Vec<u8>,
}

impl<T: ListenerCleanupBind> ListenerCleanup<T> {
    /// Bind a listener and remember the path for later cleanup.
    pub fn bind(path: Vec<u8>) -> (r: Result<ListenerCleanup<T>, BindError>)
        ensures
            r is Ok ==> r->Ok_0.spec_path() == path@,
    {
        match T::bind(&path) {
            Ok(listener) => Ok(ListenerCleanup { listener, path }),
            Err(e) => Err(e),
        }
    }
}

impl<T> ListenerCleanup<T> {
    pub closed spec fn spec_path(self) -> Seq<u8> {
        self.path@
    }

    pub fn listener(&self) -> &T {
        &self.listener
    }

    pub fn path(&self) -> (r: &Vec<u8>)
        ensures
            r@ == self.spec_path(),
    {
        &self.path
    }

    /// Release the pair: the owner closes the listener and unlinks the
    /// path, in that order.
    pub fn release(self) -> (r: (T, Vec<u8>))
        ensures
            r.1@ == self.spec_path(),
    {
        let ListenerCleanup { listener, path } = self;
        (listener, path)
    }
}

} // verus!
