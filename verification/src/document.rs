use vstd::prelude::*;

use crate::codec::{Codec, enc_le, dec_le, lemma_enc_le_len, lemma_dec_enc_le, lemma_pow256_8,
    lemma_dec_le_bound};

verus! {

/// A top-level persisted document: a codec value with a default (empty)
/// state.  A store holds one document and mirrors it to a backing file.
pub trait Document: Codec {
    /// Model of the default (empty) document.
    spec fn default_m() -> Self::M;

    fn default_doc() -> (d: Self)
        ensures
            d.cinv(),
            d.model() == Self::default_m(),
    ;
}

/// The contents of an optional backing file, as a byte sequence.
pub open spec fn file_model(f: &Option<Vec<u8>>) -> Option<Seq<u8>> {
    match *f {
        None => None,
        Some(v) => Some(v@),
    }
}

/// Whole-buffer decoding: every byte must belong to the encoding.
pub open spec fn spec_decode_doc<T: Document>(b: Seq<u8>) -> Option<T::M> {
    match T::dec(b) {
        Some((m, k)) => if k == b.len() {
            Some(m)
        } else {
            None
        },
        None => None,
    }
}

/// The document model that opening a store over the given backing bytes
/// yields: the decoded document, or the default when there is no file or the
/// bytes do not decode.
pub open spec fn spec_open<T: Document>(file: Option<Seq<u8>>) -> T::M {
    match file {
        None => T::default_m(),
        Some(b) => match spec_decode_doc::<T>(b) {
            Some(m) => m,
            None => T::default_m(),
        },
    }
}

pub fn encode_doc<T: Document>(d: &T) -> (b: Vec<u8>)
    requires
        d.cinv(),
    ensures
        b@ == d.enc(),
{
    let mut out: Vec<u8> = Vec::new();
    d.write_bytes(&mut out);
    out
}

pub fn decode_doc<T: Document>(b: &[u8]) -> (r: Option<T>)
    ensures
        match r {
            Some(d) => d.cinv() && spec_decode_doc::<T>(b@) == Some(d.model()),
            None => spec_decode_doc::<T>(b@) is None,
        },
{
    match T::read_bytes(b, 0) {
        Some((d, p)) => {
            proof {
                assert(b@.skip(0) =~= b@);
            }
            if p == b.len() {
                Some(d)
            } else {
                None
            }
        },
        None => {
            proof {
                assert(b@.skip(0) =~= b@);
            }
            None
        },
    }
}

/// Opening with no backing file yields the default document.
pub proof fn lemma_open_fresh<T: Document>()
    ensures
        spec_open::<T>(None) == T::default_m(),
{
}

/// Opening over bytes that do not decode as a document yields the default
/// document, exactly as a fresh start does.
pub proof fn lemma_open_corrupt<T: Document>(b: Seq<u8>)
    requires
        spec_decode_doc::<T>(b) is None,
    ensures
        spec_open::<T>(Some(b)) == T::default_m(),
{
}

/// Round trip: reopening a store over a committed document's encoding yields
/// exactly that document.
pub proof fn lemma_open_round_trip<T: Document>(d: T)
    requires
        d.cinv(),
    ensures
        spec_open::<T>(Some(d.enc())) == d.model(),
{
    d.lemma_dec_enc(Seq::empty());
    assert(d.enc() + Seq::<u8>::empty() =~= d.enc());
}

/// The simplest document: one counter.
#[derive(PartialEq, Eq, Structural, Clone, Copy, Debug)]
pub struct Counter {
    pub count: u64,
}

impl Codec for Counter {
    type M = Counter;

    open spec fn model(&self) -> Counter {
        *self
    }

    open spec fn cinv(&self) -> bool {
        true
    }

    open spec fn enc(&self) -> Seq<u8> {
        enc_le(self.count, 8)
    }

    open spec fn dec(b: Seq<u8>) -> Option<(Counter, int)> {
        if b.len() < 8 {
            None
        } else {
            Some((Counter { count: dec_le(b.take(8)) as u64 }, 8))
        }
    }

    proof fn lemma_dec_span(b: Seq<u8>) {
    }

    proof fn lemma_dec_enc(&self, rest: Seq<u8>) {
        lemma_enc_le_len(self.count, 8);
        assert((self.enc() + rest).take(8) =~= self.enc());
        lemma_pow256_8();
        lemma_dec_enc_le(self.count, 8);
    }

    fn write_bytes(&self, out: &mut Vec<u8>) {
        crate::codec::write_u64(out, self.count);
    }

    fn read_bytes(b: &[u8], pos: usize) -> (r: Option<(Self, usize)>) {
        match u64::read_bytes(b, pos) {
            Some((v, p2)) => Some((Counter { count: v }, p2)),
            None => None,
        }
    }

    fn cclone(&self) -> (c: Self) {
        Counter { count: self.count }
    }
}

impl Document for Counter {
    open spec fn default_m() -> Counter {
        Counter { count: 0 }
    }

    fn default_doc() -> (d: Self) {
        Counter { count: 0 }
    }
}

} // verus!
