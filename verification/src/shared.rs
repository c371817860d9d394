use vstd::prelude::*;

use std::sync::Arc;
use vstd::rwlock::{RwLock, RwLockPredicate};

use crate::codec::Codec;
use crate::disk::{LocalStore, MemDisk};
use crate::document::{Document, file_model};
use crate::store::DbError;

verus! {

/// The lock invariant: only well-formed stores go into the lock.
pub struct StorePred;

impl<T: Document> RwLockPredicate<LocalStore<T>> for StorePred {
    open spec fn inv(self, v: LocalStore<T>) -> bool {
        v.wf()
    }
}

/// Relies on Arc::clone: the new handle refers to the same allocation, so it
/// carries the same value.
#[verifier::external_body]
fn arc_clone<A>(a: &Arc<A>) -> (r: Arc<A>)
    ensures
        r == *a,
{
    Arc::clone(a)
}

/// A shared handle to one concurrently used document store.
///
/// Any number of handles refer to the same store; a verified reader-writer
/// lock makes every `write` mutually exclusive with all other writes and
/// reads, so each mutation and its persist happen as one atomic step, while
/// reads may run beside each other freely.
pub struct SharedStore<T: Document> {
    inner: Arc<RwLock<LocalStore<T>, StorePred>>,
}

impl<T: Document> SharedStore<T> {
    /// Opens a shared store over the given backing-file contents.
    pub fn open(file: Option<Vec<u8>>) -> (s: Self) {
        let disk = MemDisk::new(file);
        let local = LocalStore::open_local(disk);
        SharedStore { inner: Arc::new(RwLock::new(local, Ghost(StorePred))) }
    }

    /// Another handle to the same store.
    pub fn share(&self) -> (h: Self)
        ensures
            h == *self,
    {
        SharedStore { inner: arc_clone(&self.inner) }
    }

    /// A copy of the document as it stood at some instant during the call.
    pub fn snapshot(&self) -> (d: T)
        ensures
            d.cinv(),
    {
        let handle = self.inner.acquire_read();
        let d = handle.borrow().snapshot();
        handle.release_read();
        d
    }

    /// Applies a view function to a consistent snapshot of the document.
    pub fn read<R, F: FnOnce(T) -> R>(&self, f: F) -> (r: R)
        requires
            forall|d: T| d.cinv() ==> call_requires(f, (d,)),
        ensures
            exists|d: T| d.cinv() && call_ensures(f, (d,), r),
    {
        let handle = self.inner.acquire_read();
        let r = handle.borrow().read(f);
        handle.release_read();
        r
    }

    /// Runs one atomic read-modify-persist cycle, mutually exclusive with
    /// every other access to the same store.  The mutate function sees the
    /// latest document; its error leaves the document unchanged.
    pub fn write<R, F: FnOnce(T) -> Result<(T, R), String>>(&self, f: F) -> (r: Result<
        R,
        DbError,
    >)
        requires
            forall|d: T| d.cinv() ==> call_requires(f, (d,)),
            forall|d: T, t2: T, res: R|
                d.cinv() && call_ensures(f, (d,), Ok((t2, res))) ==> t2.cinv(),
        ensures
            match r {
                Ok(res) => exists|pre: T, post: T|
                    pre.cinv() && post.cinv() && #[trigger] call_ensures(
                        f,
                        (pre,),
                        Ok((post, res)),
                    ),
                Err(e) => {
                    &&& !(e is Codec)
                    &&& (e matches DbError::Application(m) ==> exists|pre: T|
                        pre.cinv() && #[trigger] call_ensures(f, (pre,), Err(m)))
                },
            },
    {
        let (local, write_handle) = self.inner.acquire_write();
        let mut local = local;
        let r = local.write(f);
        write_handle.release_write(local);
        r
    }

    /// The backing file as it stood at some instant during the call.
    pub fn disk_image(&self) -> (r: Option<Vec<u8>>) {
        let handle = self.inner.acquire_read();
        let r = handle.borrow().disk_image();
        handle.release_read();
        r
    }

    /// Injects disk faults for the coming writes.
    pub fn inject_disk_faults(&self, fails: u64, slows: u64) {
        let (local, write_handle) = self.inner.acquire_write();
        let mut local = local;
        local.inject_disk_faults(fails, slows);
        write_handle.release_write(local);
    }
}

} // verus!
