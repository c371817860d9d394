use vstd::prelude::*;

use crate::codec::Codec;
use crate::document::{Document, spec_open, file_model, encode_doc, decode_doc};

verus! {

/// Number of disk-write attempts made for one persist before giving up.
pub const MAX_WRITE_ATTEMPTS: u64 = 3;

/// Fixed backoff between failed disk-write attempts, in milliseconds.
pub const RETRY_BACKOFF_MS: u64 = 100;

/// How long a caller waits for one persist before it is reported as timed
/// out, in seconds.
pub const WRITE_TIMEOUT_SECS: u64 = 5;

/// Why a store operation failed.
#[derive(Debug)]
pub enum DbError {
    /// Filesystem failure, after the write was attempted the full number of
    /// times.
    Io(String),
    /// The backing bytes could not be decoded or produced.
    Codec(String),
    /// The caller's mutate function rejected the operation; the document is
    /// unchanged.
    Application(String),
    /// The disk write outlived the waiting budget; the mutation is committed
    /// in memory and a detached emergency save owns the bytes.
    Timeout,
}

/// What the runner of a disk write observed for one attempt.
#[derive(Debug)]
pub enum DiskEvent {
    /// The file now holds exactly the written bytes.
    Completed,
    /// The write failed and the file is unchanged.
    Failed(String),
    /// The write did not finish within the waiting budget; the file is not
    /// known to hold the bytes.
    TimedOut,
}

/// A staged mutation: the new document and its encoding, waiting to be
/// persisted before the store commits it.
pub struct PendingWrite<T: Document> {
    data: T,
    bytes: Vec<u8>,
    tries_left: u64,
}

impl<T: Document> PendingWrite<T> {
    /// The staged document value.
    pub closed spec fn doc(&self) -> T {
        self.data
    }

    pub open spec fn doc_m(&self) -> T::M {
        self.doc().model()
    }

    /// The staged encoding.
    pub closed spec fn bytes_m(&self) -> Seq<u8> {
        self.bytes@
    }

    /// Disk-write attempts still allowed after the current one.
    pub closed spec fn tries(&self) -> u64 {
        self.tries_left
    }

    pub open spec fn wf(&self) -> bool {
        &&& self.doc().cinv()
        &&& self.bytes_m() == self.doc().enc()
        &&& self.tries() < MAX_WRITE_ATTEMPTS
    }

    /// The bytes the runner must hand to the disk.
    pub fn bytes(&self) -> (b: &Vec<u8>)
        ensures
            b@ == self.bytes_m(),
    {
        &self.bytes
    }
}

/// What the store decides after one disk-write attempt.
pub enum WriteStep<T: Document> {
    /// The new document is committed in memory and holds on disk.
    Committed,
    /// Attempt the disk write again after the given backoff in milliseconds.
    Retry(PendingWrite<T>, u64),
    /// Every attempt failed: the store is unchanged and the error goes to the
    /// caller.
    GaveUp(DbError),
    /// The caller's wait is over: the mutation is committed in memory, the
    /// caller is told `DbError::Timeout`, and these bytes go to a detached
    /// best-effort emergency save.
    EmergencySave(Vec<u8>),
}

/// The in-memory document that mirrors one backing file.
///
/// The store itself never touches a disk: `open_store` takes the bytes that
/// were read, and a persist is driven as a session — `begin_write` stages a
/// mutation, the runner performs one disk write and reports a `DiskEvent`,
/// and `apply_step` decides whether to commit, retry, give up, or hand the
/// bytes to an emergency save.
pub struct DocStore<T: Document> {
    data: T,
}

impl<T: Document> DocStore<T> {
    /// Model of the in-memory document.
    pub closed spec fn doc_m(&self) -> T::M {
        self.data.model()
    }

    pub closed spec fn wf(&self) -> bool {
        self.data.cinv()
    }

    /// Builds the store from the backing file's contents, if any: a missing
    /// or undecodable file yields the default document.
    pub fn open_store(file: Option<Vec<u8>>) -> (s: Self)
        ensures
            s.wf(),
            s.doc_m() == spec_open::<T>(file_model(&file)),
    {
        match file {
            None => DocStore { data: T::default_doc() },
            Some(bytes) => match decode_doc::<T>(bytes.as_slice()) {
                Some(d) => DocStore { data: d },
                None => DocStore { data: T::default_doc() },
            },
        }
    }

    /// A copy of the current document.
    pub fn snapshot(&self) -> (d: T)
        ensures
            d.model() == self.doc_m(),
            self.wf() ==> d.cinv(),
    {
        self.data.cclone()
    }

    /// Applies a view function to a consistent snapshot of the document.
    /// Never touches disk and never changes the store.
    pub fn read<R, F: FnOnce(T) -> R>(&self, f: F) -> (r: R)
        requires
            self.wf(),
            forall|d: T| d.cinv() && d.model() == self.doc_m() ==> call_requires(f, (d,)),
        ensures
            exists|d: T| d.cinv() && d.model() == self.doc_m() && call_ensures(f, (d,), r),
    {
        let d = self.data.cclone();
        f(d)
    }

    /// Stages a mutation: runs the mutate function on a scratch copy and
    /// encodes the outcome.  The store itself is unchanged; an application
    /// error aborts with nothing staged, exactly when the mutate function
    /// rejects the snapshot it was given.
    pub fn begin_write<R, F: FnOnce(T) -> Result<(T, R), String>>(&self, f: F) -> (r: Result<
        (PendingWrite<T>, R),
        DbError,
    >)
        requires
            self.wf(),
            forall|d: T| d.cinv() && d.model() == self.doc_m() ==> call_requires(f, (d,)),
            forall|d: T, t2: T, res: R|
                d.cinv() && d.model() == self.doc_m() && call_ensures(f, (d,), Ok((t2, res)))
                    ==> t2.cinv(),
        ensures
            match r {
                Ok(p) => {
                    &&& p.0.wf()
                    &&& p.0.tries() == MAX_WRITE_ATTEMPTS - 1
                    &&& exists|d: T|
                        d.cinv() && d.model() == self.doc_m() && call_ensures(
                            f,
                            (d,),
                            Ok((p.0.doc(), p.1)),
                        )
                },
                Err(e) => {
                    &&& e matches DbError::Application(m) && exists|d: T|
                        d.cinv() && d.model() == self.doc_m() && call_ensures(f, (d,), Err(m))
                },
            },
    {
        let d = self.data.cclone();
        let ghost d0 = d;
        match f(d) {
            Err(m) => Err(DbError::Application(m)),
            Ok((t2, res)) => {
                proof {
                    assert(t2.cinv());
                }
                let bytes = encode_doc(&t2);
                Ok((PendingWrite { data: t2, bytes, tries_left: MAX_WRITE_ATTEMPTS - 1 }, res))
            },
        }
    }

    /// Decides what follows one disk-write attempt of a staged mutation.
    pub fn apply_step(&mut self, p: PendingWrite<T>, ev: DiskEvent) -> (step: WriteStep<T>)
        requires
            old(self).wf(),
            p.wf(),
        ensures
            final(self).wf(),
            match step {
                WriteStep::Committed => {
                    &&& ev is Completed
                    &&& final(self).doc_m() == p.doc_m()
                },
                WriteStep::Retry(p2, backoff) => {
                    &&& ev is Failed
                    &&& p.tries() > 0
                    &&& final(self).doc_m() == old(self).doc_m()
                    &&& p2.wf()
                    &&& p2.doc() == p.doc()
                    &&& p2.bytes_m() == p.bytes_m()
                    &&& p2.tries() == p.tries() - 1
                    &&& backoff == RETRY_BACKOFF_MS
                },
                WriteStep::GaveUp(e) => {
                    &&& p.tries() == 0
                    &&& final(self).doc_m() == old(self).doc_m()
                    &&& ev matches DiskEvent::Failed(m) && e matches DbError::Io(m2) && m2 == m
                },
                WriteStep::EmergencySave(bytes) => {
                    &&& ev is TimedOut
                    &&& final(self).doc_m() == p.doc_m()
                    &&& bytes@ == p.bytes_m()
                },
            },
    {
        match ev {
            DiskEvent::Completed => {
                self.data = p.data;
                WriteStep::Committed
            },
            DiskEvent::Failed(m) => {
                if p.tries_left > 0 {
                    let p2 = PendingWrite {
                        data: p.data,
                        bytes: p.bytes,
                        tries_left: p.tries_left - 1,
                    };
                    WriteStep::Retry(p2, RETRY_BACKOFF_MS)
                } else {
                    WriteStep::GaveUp(DbError::Io(m))
                }
            },
            DiskEvent::TimedOut => {
                self.data = p.data;
                WriteStep::EmergencySave(p.bytes)
            },
        }
    }
}

} // verus!
