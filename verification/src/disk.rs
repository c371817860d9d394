use vstd::prelude::*;

use crate::codec::Codec;
use crate::document::{Document, spec_open, file_model};
use crate::store::{DbError, DiskEvent, DocStore, WriteStep, MAX_WRITE_ATTEMPTS};
use vstd::slice::slice_to_vec;

verus! {

/// An in-memory backing file: whole-file replace with fault injection.  It is
/// the store's simulated persistence medium; a deployment drives the same
/// store protocol against a real filesystem instead.
pub struct MemDisk {
    file: Option<Vec<u8>>,
    fail_budget: u64,
    slow_budget: u64,
}

impl MemDisk {
    /// Current file contents.
    pub closed spec fn file_m(&self) -> Option<Seq<u8>> {
        match self.file {
            None => None,
            Some(v) => Some(v@),
        }
    }

    /// How many coming writes fail outright.
    pub closed spec fn fails(&self) -> u64 {
        self.fail_budget
    }

    /// How many writes after that exceed the caller's waiting budget.
    pub closed spec fn slows(&self) -> u64 {
        self.slow_budget
    }

    pub fn new(file: Option<Vec<u8>>) -> (d: Self)
        ensures
            d.file_m() == file_model(&file),
            d.fails() == 0,
            d.slows() == 0,
    {
        MemDisk { file, fail_budget: 0, slow_budget: 0 }
    }

    pub fn empty() -> (d: Self)
        ensures
            d.file_m() is None,
            d.fails() == 0,
            d.slows() == 0,
    {
        MemDisk { file: None, fail_budget: 0, slow_budget: 0 }
    }

    /// The next `fails` writes fail; the `slows` writes after them time out.
    pub fn inject_faults(&mut self, fails: u64, slows: u64)
        ensures
            final(self).file_m() == old(self).file_m(),
            final(self).fails() == fails,
            final(self).slows() == slows,
    {
        self.fail_budget = fails;
        self.slow_budget = slows;
    }

    pub fn read_file(&self) -> (r: Option<Vec<u8>>)
        ensures
            file_model(&r) == self.file_m(),
    {
        match &self.file {
            None => None,
            Some(v) => Some(slice_to_vec(v.as_slice())),
        }
    }

    /// One whole-file write attempt.  A failed or timed-out write leaves the
    /// file as it was: a write is whole-file replace, never a partial patch.
    pub fn write_file(&mut self, bytes: &Vec<u8>) -> (ev: DiskEvent)
        ensures
            match ev {
                DiskEvent::Completed => {
                    &&& old(self).fails() == 0 && old(self).slows() == 0
                    &&& final(self).file_m() == Some(bytes@)
                    &&& final(self).fails() == 0 && final(self).slows() == 0
                },
                DiskEvent::Failed(_) => {
                    &&& old(self).fails() > 0
                    &&& final(self).file_m() == old(self).file_m()
                    &&& final(self).fails() == old(self).fails() - 1
                    &&& final(self).slows() == old(self).slows()
                },
                DiskEvent::TimedOut => {
                    &&& old(self).fails() == 0 && old(self).slows() > 0
                    &&& final(self).file_m() == old(self).file_m()
                    &&& final(self).fails() == 0
                    &&& final(self).slows() == old(self).slows() - 1
                },
            },
    {
        if self.fail_budget > 0 {
            self.fail_budget = self.fail_budget - 1;
            DiskEvent::Failed("injected write fault".to_owned())
        } else if self.slow_budget > 0 {
            self.slow_budget = self.slow_budget - 1;
            DiskEvent::TimedOut
        } else {
            self.file = Some(slice_to_vec(bytes.as_slice()));
            DiskEvent::Completed
        }
    }
}

/// The mutate function, applied to some document with the given model,
/// produced the new document `post` and result `res`.
pub open spec fn mutated<T: Document, R, F: FnOnce(T) -> Result<(T, R), String>>(
    f: F,
    pre_m: T::M,
    post: T,
    res: R,
) -> bool {
    exists|pre: T|
        pre.cinv() && pre.model() == pre_m && #[trigger] call_ensures(f, (pre,), Ok((post, res)))
}

/// The mutate function rejected some document with the given model with the
/// message `m`.
pub open spec fn rejected<T: Document, R, F: FnOnce(T) -> Result<(T, R), String>>(
    f: F,
    pre_m: T::M,
    m: String,
) -> bool {
    exists|pre: T|
        pre.cinv() && pre.model() == pre_m && #[trigger] call_ensures(f, (pre,), Err(m))
}

/// A committed write: the document is the mutate function's outcome and the
/// backing file holds exactly its encoding.
pub open spec fn committed<T: Document, R, F: FnOnce(T) -> Result<(T, R), String>>(
    f: F,
    pre_m: T::M,
    post_m: T::M,
    file: Option<Seq<u8>>,
    res: R,
) -> bool {
    exists|post: T|
        {
            &&& #[trigger] mutated(f, pre_m, post, res)
            &&& post.cinv()
            &&& post_m == post.model()
            &&& file == Some(post.enc())
        }
}

/// A timed-out write: the mutation is committed in memory; the file holds the
/// new encoding if the emergency save went through, else it is unchanged, and
/// with at most one slow write outstanding the emergency save always goes
/// through.
pub open spec fn timed_out<T: Document, R, F: FnOnce(T) -> Result<(T, R), String>>(
    f: F,
    pre_m: T::M,
    post_m: T::M,
    file: Option<Seq<u8>>,
    old_file: Option<Seq<u8>>,
    old_slows: u64,
) -> bool {
    exists|post: T, res: R|
        {
            &&& #[trigger] mutated(f, pre_m, post, res)
            &&& post.cinv()
            &&& post_m == post.model()
            &&& (file == Some(post.enc()) || file == old_file)
            &&& (old_slows <= 1 ==> file == Some(post.enc()))
        }
}

/// After a committed write the backing file reproduces the in-memory
/// document: reopening the store from that file yields exactly the document
/// the write left in memory.
pub proof fn lemma_committed_agrees<T: Document, R, F: FnOnce(T) -> Result<(T, R), String>>(
    f: F,
    pre_m: T::M,
    post_m: T::M,
    file: Option<Seq<u8>>,
    res: R,
)
    requires
        committed(f, pre_m, post_m, file, res),
    ensures
        spec_open::<T>(file) == post_m,
{
    let post = choose|post: T|
        {
            &&& #[trigger] mutated(f, pre_m, post, res)
            &&& post.cinv()
            &&& post_m == post.model()
            &&& file == Some(post.enc())
        };
    crate::document::lemma_open_round_trip(post);
}

/// One document store together with its backing file: the sequential store,
/// whose write runs the whole persist protocol — stage, attempt, retry with
/// backoff, give up, or commit and fall back to an emergency save.
pub struct LocalStore<T: Document> {
    store: DocStore<T>,
    disk: MemDisk,
}

impl<T: Document> LocalStore<T> {
    pub closed spec fn doc_m(&self) -> T::M {
        self.store.doc_m()
    }

    pub closed spec fn wf(&self) -> bool {
        self.store.wf()
    }

    pub closed spec fn file_m(&self) -> Option<Seq<u8>> {
        self.disk.file_m()
    }

    pub closed spec fn disk_fails(&self) -> u64 {
        self.disk.fails()
    }

    pub closed spec fn disk_slows(&self) -> u64 {
        self.disk.slows()
    }

    /// Opens the store over the given backing file: the document is what the
    /// file decodes to, or the default when the file is absent or corrupt.
    pub fn open_local(disk: MemDisk) -> (s: Self)
        ensures
            s.wf(),
            s.doc_m() == spec_open::<T>(disk.file_m()),
            s.file_m() == disk.file_m(),
            s.disk_fails() == disk.fails(),
            s.disk_slows() == disk.slows(),
    {
        let file = disk.read_file();
        let store = DocStore::open_store(file);
        LocalStore { store, disk }
    }

    /// A copy of the current document.
    pub fn snapshot(&self) -> (d: T)
        ensures
            d.model() == self.doc_m(),
            self.wf() ==> d.cinv(),
    {
        self.store.snapshot()
    }

    /// Applies a view function to a consistent snapshot of the document.
    pub fn read<R, F: FnOnce(T) -> R>(&self, f: F) -> (r: R)
        requires
            self.wf(),
            forall|d: T| d.cinv() && d.model() == self.doc_m() ==> call_requires(f, (d,)),
        ensures
            exists|d: T| d.cinv() && d.model() == self.doc_m() && call_ensures(f, (d,), r),
    {
        self.store.read(f)
    }

    /// The backing file as it stands.
    pub fn disk_image(&self) -> (r: Option<Vec<u8>>)
        ensures
            file_model(&r) == self.file_m(),
    {
        self.disk.read_file()
    }

    /// Injects disk faults for the coming writes.
    pub fn inject_disk_faults(&mut self, fails: u64, slows: u64)
        ensures
            final(self).wf() == old(self).wf(),
            final(self).doc_m() == old(self).doc_m(),
            final(self).file_m() == old(self).file_m(),
            final(self).disk_fails() == fails,
            final(self).disk_slows() == slows,
    {
        self.disk.inject_faults(fails, slows);
    }

    /// Runs one atomic read-modify-persist cycle.
    ///
    /// The mutate function is applied to a scratch copy; on success the new
    /// document is encoded and written to the backing file, retried up to
    /// `MAX_WRITE_ATTEMPTS` times.  An application error leaves document and
    /// file untouched.  A timed-out write commits the mutation in memory,
    /// reports `DbError::Timeout`, and hands the bytes to one best-effort
    /// emergency save.
    pub fn write<R, F: FnOnce(T) -> Result<(T, R), String>>(&mut self, f: F) -> (r: Result<
        R,
        DbError,
    >)
        requires
            old(self).wf(),
            forall|d: T| d.cinv() && d.model() == old(self).doc_m() ==> call_requires(f, (d,)),
            forall|d: T, t2: T, res: R|
                d.cinv() && d.model() == old(self).doc_m() && call_ensures(f, (d,), Ok((t2, res)))
                    ==> t2.cinv(),
        ensures
            final(self).wf(),
            match r {
                Ok(res) => {
                    &&& committed(
                        f,
                        old(self).doc_m(),
                        final(self).doc_m(),
                        final(self).file_m(),
                        res,
                    )
                    &&& final(self).disk_fails() == 0
                    &&& final(self).disk_slows() == 0
                },
                Err(e) => match e {
                    DbError::Application(m) => {
                        &&& final(self).doc_m() == old(self).doc_m()
                        &&& final(self).file_m() == old(self).file_m()
                        &&& final(self).disk_fails() == old(self).disk_fails()
                        &&& final(self).disk_slows() == old(self).disk_slows()
                        &&& rejected::<T, R, F>(f, old(self).doc_m(), m)
                    },
                    DbError::Io(_) => {
                        &&& final(self).doc_m() == old(self).doc_m()
                        &&& final(self).file_m() == old(self).file_m()
                        &&& old(self).disk_fails() > 0
                    },
                    DbError::Timeout => timed_out::<T, R, F>(
                        f,
                        old(self).doc_m(),
                        final(self).doc_m(),
                        final(self).file_m(),
                        old(self).file_m(),
                        old(self).disk_slows(),
                    ),
                    DbError::Codec(_) => false,
                },
            },
            old(self).disk_fails() == 0 && old(self).disk_slows() == 0 ==> (r is Ok || r matches Err(
                DbError::Application(_),
            )),
            old(self).disk_fails() == 0 && old(self).disk_slows() > 0 ==> !(r is Ok),
            old(self).disk_fails() >= MAX_WRITE_ATTEMPTS ==> (r matches Err(DbError::Io(_))
                || r matches Err(DbError::Application(_))),
    {
        let staged = self.store.begin_write(f);
        match staged {
            Err(e) => {
                proof {
                    if let DbError::Application(m) = &e {
                        assert(rejected::<T, R, F>(f, old(self).doc_m(), *m));
                    }
                }
                Err(e)
            },
            Ok((p0, res)) => {
                let ghost pre = choose|d: T|
                    d.cinv() && d.model() == old(self).doc_m() && call_ensures(
                        f,
                        (d,),
                        Ok((p0.doc(), res)),
                    );
                let ghost post = p0.doc();
                let mut p = p0;
                loop
                    invariant
                        self.wf(),
                        p.wf(),
                        self.doc_m() == old(self).doc_m(),
                        self.file_m() == old(self).file_m(),
                        self.disk.slows() == old(self).disk_slows(),
                        self.disk.fails() <= old(self).disk_fails(),
                        old(self).disk_fails() == 0 ==> self.disk.fails() == 0,
                        old(self).disk_fails() > 0 || self.disk.fails() == old(self).disk_fails(),
                        self.disk.fails() + (MAX_WRITE_ATTEMPTS - 1 - p.tries()) >= old(
                            self,
                        ).disk_fails(),
                        p.doc() == post,
                        pre.cinv(),
                        pre.model() == old(self).doc_m(),
                        call_ensures(f, (pre,), Ok((post, res))),
                        post.cinv(),
                    decreases p.tries(),
                {
                    let ev = {
                        let b = p.bytes();
                        self.disk.write_file(b)
                    };
                    match self.store.apply_step(p, ev) {
                        WriteStep::Committed => {
                            proof {
                                assert(mutated(f, old(self).doc_m(), post, res));
                                assert(committed(
                                    f,
                                    old(self).doc_m(),
                                    self.doc_m(),
                                    self.file_m(),
                                    res,
                                ));
                            }
                            return Ok(res);
                        },
                        WriteStep::Retry(p2, _backoff) => {
                            p = p2;
                        },
                        WriteStep::GaveUp(e) => {
                            return Err(e);
                        },
                        WriteStep::EmergencySave(bytes) => {
                            let _ = self.disk.write_file(&bytes);
                            proof {
                                assert(mutated(f, old(self).doc_m(), post, res));
                                assert(timed_out::<T, R, F>(
                                    f,
                                    old(self).doc_m(),
                                    self.doc_m(),
                                    self.file_m(),
                                    old(self).file_m(),
                                    old(self).disk_slows(),
                                ));
                            }
                            return Err(DbError::Timeout);
                        },
                    }
                }
            },
        }
    }
}

} // verus!
