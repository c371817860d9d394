use vstd::prelude::*;

verus! {

use vstd::arithmetic::div_mod::lemma_fundamental_div_mod;

/// Little-endian base-256 encoding of `v` on `n` bytes (low byte first).
pub open spec fn enc_le(v: u64, n: nat) -> Seq<u8>
    decreases n,
{
    if n == 0 {
        Seq::empty()
    } else {
        seq![(v % 256) as u8] + enc_le(v / 256, (n - 1) as nat)
    }
}

/// Value of a little-endian byte sequence.
pub open spec fn dec_le(b: Seq<u8>) -> int
    decreases b.len(),
{
    if b.len() == 0 {
        0
    } else {
        b[0] + 256 * dec_le(b.drop_first())
    }
}

pub open spec fn pow256(n: nat) -> int
    decreases n,
{
    if n == 0 {
        1
    } else {
        256 * pow256((n - 1) as nat)
    }
}

pub proof fn lemma_enc_le_len(v: u64, n: nat)
    ensures
        enc_le(v, n).len() == n,
    decreases n,
{
    if n > 0 {
        lemma_enc_le_len(v / 256, (n - 1) as nat);
    }
}

pub proof fn lemma_dec_le_bound(b: Seq<u8>)
    ensures
        0 <= dec_le(b) < pow256(b.len()),
    decreases b.len(),
{
    if b.len() > 0 {
        lemma_dec_le_bound(b.drop_first());
    }
}

/// Decoding inverts encoding for any value that fits on `n` bytes.
pub proof fn lemma_dec_enc_le(v: u64, n: nat)
    requires
        v < pow256(n),
    ensures
        dec_le(enc_le(v, n)) == v,
    decreases n,
{
    if n == 0 {
    } else {
        let e = enc_le(v, n);
        assert(e.drop_first() =~= enc_le(v / 256, (n - 1) as nat));
        assert((v / 256) * 256 < pow256((n - 1) as nat) * 256 ==> v / 256 < pow256(
            (n - 1) as nat,
        )) by (nonlinear_arith);
        assert((v / 256) * 256 <= v) by (nonlinear_arith);
        lemma_dec_enc_le(v / 256, (n - 1) as nat);
        lemma_fundamental_div_mod(v as int, 256);
    }
}

pub proof fn lemma_pow256_8()
    ensures
        pow256(8) == 0x1_0000_0000_0000_0000,
{
    assert(pow256(8) == 0x1_0000_0000_0000_0000) by {
        reveal_with_fuel(pow256, 9);
    }
}

/// Appends the 8-byte little-endian form of `v`.
pub fn write_u64(out: &mut Vec<u8>, v: u64)
    ensures
        final(out)@ == old(out)@ + enc_le(v, 8),
{
    let ghost start = out@;
    let mut x: u64 = v;
    let mut i: usize = 0;
    while i < 8
        invariant
            0 <= i <= 8,
            start + enc_le(v, 8) == out@ + enc_le(x, (8 - i) as nat),
        decreases 8 - i,
    {
        proof {
            assert(enc_le(x, (8 - i) as nat) == seq![(x % 256) as u8] + enc_le(
                x / 256,
                (8 - i - 1) as nat,
            ));
        }
        out.push((x % 256) as u8);
        x = x / 256;
        i = i + 1;
        proof {
            assert(start + enc_le(v, 8) =~= out@ + enc_le(x, (8 - i) as nat));
        }
    }
    proof {
        assert(out@ =~= start + enc_le(v, 8));
    }
}

/// Reads the 8-byte little-endian integer at `pos`.
pub fn read_u64(b: &[u8], pos: usize) -> (r: u64)
    requires
        pos + 8 <= b@.len(),
    ensures
        r == dec_le(b@.subrange(pos as int, pos as int + 8)),
{
    let blen: usize = b.len();
    let mut acc: u64 = 0;
    let mut i: usize = 8;
    proof {
        assert(b@.subrange(pos as int + 8, pos as int + 8) =~= Seq::<u8>::empty());
    }
    while i > 0
        invariant
            0 <= i <= 8,
            pos + 8 <= blen,
            blen == b@.len(),
            acc == dec_le(b@.subrange(pos + i, pos as int + 8)),
            acc < pow256((8 - i) as nat),
        decreases i,
    {
        proof {
            lemma_dec_le_bound(b@.subrange(pos + i - 1, pos as int + 8));
            assert(pow256((8 - (i - 1)) as nat) <= pow256(8)) by {
                lemma_pow256_mono((8 - i + 1) as nat, 8);
            }
            lemma_pow256_8();
            assert(b@.subrange(pos + i - 1, pos as int + 8).drop_first() =~= b@.subrange(
                pos + i,
                pos as int + 8,
            ));
        }
        i = i - 1;
        acc = acc * 256 + (b[pos + i] as u64);
    }
    proof {
        assert(b@.subrange(pos as int, pos as int + 8) == b@.subrange(pos + 0, pos as int + 8));
    }
    acc
}

pub proof fn lemma_pow256_mono(m: nat, n: nat)
    requires
        m <= n,
    ensures
        pow256(m) <= pow256(n),
    decreases n,
{
    if m < n && n > 0 {
        lemma_pow256_mono(m, (n - 1) as nat);
        lemma_pow256_pos((n - 1) as nat);
    }
}

pub proof fn lemma_pow256_pos(n: nat)
    ensures
        pow256(n) >= 1,
    decreases n,
{
    if n > 0 {
        lemma_pow256_pos((n - 1) as nat);
    }
}

} // verus!
// ---- The codec contract ----

verus! {

use vstd::utf8::{valid_utf8, decode_utf8, encode_utf8};

/// A value with a deterministic whole-value binary encoding.
///
/// `M` is the mathematical model of the value; decoding is specified at the
/// model level, and `lemma_dec_enc` states that decoding an encoding (with
/// any trailing bytes) yields that value's model back and consumes exactly
/// the encoding.
pub trait Codec: Sized {
    type M;

    /// Mathematical model of this value.
    spec fn model(&self) -> Self::M;

    /// Well-formedness required for encoding.
    spec fn cinv(&self) -> bool;

    /// The encoding of this value.
    spec fn enc(&self) -> Seq<u8>;

    /// Prefix decoding: the model read from the front of `b`, with the number
    /// of bytes consumed.
    spec fn dec(b: Seq<u8>) -> Option<(Self::M, int)>;

    proof fn lemma_dec_span(b: Seq<u8>)
        ensures
            Self::dec(b) matches Some(p) ==> 0 <= p.1 <= b.len(),
    ;

    proof fn lemma_dec_enc(&self, rest: Seq<u8>)
        requires
            self.cinv(),
        ensures
            Self::dec(self.enc() + rest) == Some((self.model(), self.enc().len() as int)),
    ;

    fn write_bytes(&self, out: &mut Vec<u8>)
        requires
            self.cinv(),
        ensures
            final(out)@ == old(out)@ + self.enc(),
    ;

    fn read_bytes(b: &[u8], pos: usize) -> (r: Option<(Self, usize)>)
        requires
            pos <= b@.len(),
        ensures
            match r {
                Some(p) => {
                    &&& p.0.cinv()
                    &&& pos <= p.1 <= b@.len()
                    &&& Self::dec(b@.skip(pos as int)) == Some((p.0.model(), p.1 - pos))
                },
                None => Self::dec(b@.skip(pos as int)) is None,
            },
    ;

    fn cclone(&self) -> (c: Self)
        ensures
            c.model() == self.model(),
            self.cinv() ==> c.cinv(),
    ;
}

impl Codec for u64 {
    type M = u64;

    open spec fn model(&self) -> u64 {
        *self
    }

    open spec fn cinv(&self) -> bool {
        true
    }

    open spec fn enc(&self) -> Seq<u8> {
        enc_le(*self, 8)
    }

    open spec fn dec(b: Seq<u8>) -> Option<(u64, int)> {
        if b.len() < 8 {
            None
        } else {
            Some((dec_le(b.take(8)) as u64, 8))
        }
    }

    proof fn lemma_dec_span(b: Seq<u8>) {
    }

    proof fn lemma_dec_enc(&self, rest: Seq<u8>) {
        lemma_enc_le_len(*self, 8);
        assert((self.enc() + rest).take(8) =~= self.enc());
        lemma_pow256_8();
        lemma_dec_enc_le(*self, 8);
    }

    fn write_bytes(&self, out: &mut Vec<u8>) {
        write_u64(out, *self);
    }

    fn read_bytes(b: &[u8], pos: usize) -> (r: Option<(Self, usize)>) {
        if b.len() - pos < 8 {
            assert(b@.skip(pos as int).len() < 8);
            None
        } else {
            let v = read_u64(b, pos);
            proof {
                assert(b@.skip(pos as int).take(8) =~= b@.subrange(pos as int, pos as int + 8));
                lemma_dec_le_bound(b@.subrange(pos as int, pos as int + 8));
                lemma_pow256_8();
            }
            Some((v, pos + 8))
        }
    }

    fn cclone(&self) -> (c: Self) {
        *self
    }
}

impl Codec for usize {
    type M = usize;

    open spec fn model(&self) -> usize {
        *self
    }

    open spec fn cinv(&self) -> bool {
        true
    }

    open spec fn enc(&self) -> Seq<u8> {
        enc_le(*self as u64, 8)
    }

    open spec fn dec(b: Seq<u8>) -> Option<(usize, int)> {
        if b.len() < 8 {
            None
        } else if dec_le(b.take(8)) <= usize::MAX {
            Some((dec_le(b.take(8)) as usize, 8))
        } else {
            None
        }
    }

    proof fn lemma_dec_span(b: Seq<u8>) {
    }

    proof fn lemma_dec_enc(&self, rest: Seq<u8>) {
        lemma_enc_le_len(*self as u64, 8);
        assert((self.enc() + rest).take(8) =~= self.enc());
        lemma_pow256_8();
        lemma_dec_enc_le(*self as u64, 8);
    }

    fn write_bytes(&self, out: &mut Vec<u8>) {
        write_u64(out, *self as u64);
    }

    fn read_bytes(b: &[u8], pos: usize) -> (r: Option<(Self, usize)>) {
        if b.len() - pos < 8 {
            assert(b@.skip(pos as int).len() < 8);
            None
        } else {
            let v = read_u64(b, pos);
            proof {
                assert(b@.skip(pos as int).take(8) =~= b@.subrange(pos as int, pos as int + 8));
                lemma_dec_le_bound(b@.subrange(pos as int, pos as int + 8));
                lemma_pow256_8();
            }
            if v <= (usize::MAX as u64) {
                Some((v as usize, pos + 8))
            } else {
                None
            }
        }
    }

    fn cclone(&self) -> (c: Self) {
        *self
    }
}

impl Codec for Option<u64> {
    type M = Option<u64>;

    open spec fn model(&self) -> Option<u64> {
        *self
    }

    open spec fn cinv(&self) -> bool {
        true
    }

    open spec fn enc(&self) -> Seq<u8> {
        match *self {
            None => seq![0u8],
            Some(v) => seq![1u8] + enc_le(v, 8),
        }
    }

    open spec fn dec(b: Seq<u8>) -> Option<(Option<u64>, int)> {
        if b.len() < 1 {
            None
        } else if b[0] == 0u8 {
            Some((None, 1))
        } else if b[0] == 1u8 && b.len() >= 9 {
            Some((Some(dec_le(b.subrange(1, 9)) as u64), 9))
        } else {
            None
        }
    }

    proof fn lemma_dec_span(b: Seq<u8>) {
    }

    proof fn lemma_dec_enc(&self, rest: Seq<u8>) {
        match *self {
            None => {
                assert(Self::dec(self.enc() + rest) == Some((None::<u64>, 1int)));
            },
            Some(v) => {
                lemma_enc_le_len(v, 8);
                assert((self.enc() + rest).subrange(1, 9) =~= enc_le(v, 8));
                lemma_pow256_8();
                lemma_dec_enc_le(v, 8);
            },
        }
    }

    fn write_bytes(&self, out: &mut Vec<u8>) {
        match self {
            None => {
                out.push(0u8);
                proof {
                    assert(final(out)@ =~= old(out)@ + self.enc());
                }
            },
            Some(v) => {
                out.push(1u8);
                write_u64(out, *v);
                proof {
                    assert(final(out)@ =~= old(out)@ + self.enc());
                }
            },
        }
    }

    fn read_bytes(b: &[u8], pos: usize) -> (r: Option<(Self, usize)>) {
        if b.len() - pos < 1 {
            return None;
        }
        let tag = b[pos];
        if tag == 0 {
            assert(b@.skip(pos as int)[0] == 0u8);
            Some((None, pos + 1))
        } else if tag == 1 {
            if b.len() - pos < 9 {
                return None;
            }
            let v = read_u64(b, pos + 1);
            proof {
                assert(b@.skip(pos as int).subrange(1, 9) =~= b@.subrange(
                    pos + 1,
                    pos as int + 9,
                ));
                lemma_dec_le_bound(b@.subrange(pos + 1, pos as int + 9));
                lemma_pow256_8();
            }
            Some((Some(v), pos + 9))
        } else {
            None
        }
    }

    fn cclone(&self) -> (c: Self) {
        match self {
            None => None,
            Some(v) => Some(*v),
        }
    }
}

} // verus!
// ---- Lists ----

verus! {

/// Concatenated encodings of the elements of `s`.
pub open spec fn list_elems_enc<T: Codec>(s: Seq<T>) -> Seq<u8>
    decreases s.len(),
{
    if s.len() == 0 {
        Seq::empty()
    } else {
        s[0].enc() + list_elems_enc(s.drop_first())
    }
}

/// Decodes `n` consecutive element models from the front of `b`.
pub open spec fn list_elems_dec<T: Codec>(b: Seq<u8>, n: nat) -> Option<(Seq<T::M>, int)>
    decreases n,
{
    if n == 0 {
        Some((Seq::empty(), 0))
    } else {
        match T::dec(b) {
            None => None,
            Some((m, k)) => {
                if 0 <= k <= b.len() {
                    match list_elems_dec::<T>(b.skip(k), (n - 1) as nat) {
                        None => None,
                        Some((ms, j)) => Some((seq![m] + ms, k + j)),
                    }
                } else {
                    None
                }
            },
        }
    }
}

pub proof fn lemma_list_dec_span<T: Codec>(b: Seq<u8>, n: nat)
    ensures
        list_elems_dec::<T>(b, n) matches Some(p) ==> 0 <= p.1 <= b.len(),
    decreases n,
{
    if n > 0 {
        T::lemma_dec_span(b);
        if let Some((m, k)) = T::dec(b) {
            if 0 <= k <= b.len() {
                lemma_list_dec_span::<T>(b.skip(k), (n - 1) as nat);
            }
        }
    }
}

pub proof fn lemma_list_enc_push<T: Codec>(s: Seq<T>, x: T)
    ensures
        list_elems_enc(s.push(x)) == list_elems_enc(s) + x.enc(),
    decreases s.len(),
{
    if s.len() == 0 {
        assert(s.push(x)[0] == x);
        assert(s.push(x).drop_first() =~= Seq::<T>::empty());
        assert(list_elems_enc(Seq::<T>::empty()) =~= Seq::<u8>::empty());
        assert(list_elems_enc(s.push(x)) == x.enc() + list_elems_enc(Seq::<T>::empty()));
        assert(x.enc() + Seq::<u8>::empty() =~= Seq::<u8>::empty() + x.enc());
    } else {
        assert(s.push(x)[0] == s[0]);
        assert(s.push(x).drop_first() =~= s.drop_first().push(x));
        assert(list_elems_enc(s.push(x)) == s[0].enc() + list_elems_enc(s.drop_first().push(x)));
        lemma_list_enc_push(s.drop_first(), x);
        assert(s[0].enc() + (list_elems_enc(s.drop_first()) + x.enc()) =~= (s[0].enc()
            + list_elems_enc(s.drop_first())) + x.enc());
    }
}

pub proof fn lemma_list_dec_enc<T: Codec>(s: Seq<T>, rest: Seq<u8>)
    requires
        forall|i: int| 0 <= i < s.len() ==> s[i].cinv(),
    ensures
        list_elems_dec::<T>(list_elems_enc(s) + rest, s.len() as nat) == Some(
            (s.map_values(|t: T| t.model()), list_elems_enc(s).len() as int),
        ),
    decreases s.len(),
{
    if s.len() == 0 {
        assert(s.map_values(|t: T| t.model()) =~= Seq::<T::M>::empty());
    } else {
        let tail = s.drop_first();
        let e0 = s[0].enc();
        let etail = list_elems_enc(tail);
        assert(list_elems_enc(s) + rest =~= e0 + (etail + rest));
        s[0].lemma_dec_enc(etail + rest);
        T::lemma_dec_span(e0 + (etail + rest));
        assert((e0 + (etail + rest)).skip(e0.len() as int) =~= etail + rest);
        lemma_list_dec_enc::<T>(tail, rest);
        assert(seq![s[0].model()] + tail.map_values(|t: T| t.model()) =~= s.map_values(
            |t: T| t.model(),
        ));
    }
}

impl<T: Codec> Codec for Vec<T> {
    type M = Seq<T::M>;

    open spec fn model(&self) -> Seq<T::M> {
        self@.map_values(|t: T| t.model())
    }

    open spec fn cinv(&self) -> bool {
        forall|i: int| 0 <= i < self@.len() ==> self@[i].cinv()
    }

    open spec fn enc(&self) -> Seq<u8> {
        enc_le(self@.len() as u64, 8) + list_elems_enc(self@)
    }

    open spec fn dec(b: Seq<u8>) -> Option<(Seq<T::M>, int)> {
        if b.len() < 8 {
            None
        } else {
            match list_elems_dec::<T>(b.skip(8), dec_le(b.take(8)) as nat) {
                None => None,
                Some((ms, j)) => Some((ms, 8 + j)),
            }
        }
    }

    proof fn lemma_dec_span(b: Seq<u8>) {
        if b.len() >= 8 {
            lemma_list_dec_span::<T>(b.skip(8), dec_le(b.take(8)) as nat);
        }
    }

    proof fn lemma_dec_enc(&self, rest: Seq<u8>) {
        vstd::std_specs::vec::axiom_spec_len(self);
        let hdr = enc_le(self@.len() as u64, 8);
        let body = list_elems_enc(self@);
        lemma_enc_le_len(self@.len() as u64, 8);
        assert((self.enc() + rest).take(8) =~= hdr);
        lemma_pow256_8();
        lemma_dec_enc_le(self@.len() as u64, 8);
        assert((self.enc() + rest).skip(8) =~= body + rest);
        lemma_list_dec_enc::<T>(self@, rest);
    }

    fn write_bytes(&self, out: &mut Vec<u8>) {
        let ghost start = out@;
        write_u64(out, self.len() as u64);
        let mut i: usize = 0;
        while i < self.len()
            invariant
                0 <= i <= self@.len(),
                forall|j: int| 0 <= j < self@.len() ==> self@[j].cinv(),
                out@ == start + enc_le(self@.len() as u64, 8) + list_elems_enc(self@.take(i as int)),
            decreases self@.len() - i,
        {
            self[i].write_bytes(out);
            proof {
                lemma_list_enc_push(self@.take(i as int), self@[i as int]);
                assert(self@.take(i as int).push(self@[i as int]) =~= self@.take(i + 1));
            }
            i = i + 1;
        }
        proof {
            assert(self@.take(self@.len() as int) =~= self@);
            assert(out@ =~= start + self.enc());
        }
    }

    fn read_bytes(b: &[u8], pos: usize) -> (r: Option<(Self, usize)>) {
        let ghost whole = b@.skip(pos as int);
        if b.len() - pos < 8 {
            return None;
        }
        let n = read_u64(b, pos);
        proof {
            assert(whole.take(8) =~= b@.subrange(pos as int, pos as int + 8));
            lemma_dec_le_bound(b@.subrange(pos as int, pos as int + 8));
            lemma_pow256_8();
        }
        let mut acc: Vec<T> = Vec::new();
        let mut cur: usize = pos + 8;
        let mut j: u64 = 0;
        proof {
            assert(whole.skip(8) =~= b@.skip(cur as int));
        }
        while j < n
            invariant
                pos + 8 <= cur <= b@.len(),
                0 <= j <= n,
                acc@.len() == j,
                forall|i: int| 0 <= i < acc@.len() ==> acc@[i].cinv(),
                whole == b@.skip(pos as int),
                whole.len() == b@.len() - pos,
                whole.len() >= 8,
                n == dec_le(whole.take(8)),
                list_elems_dec::<T>(whole.skip(8), n as nat) == match list_elems_dec::<T>(
                    b@.skip(cur as int),
                    (n - j) as nat,
                ) {
                    None => None::<(Seq<T::M>, int)>,
                    Some((ms, k)) => Some(
                        (acc@.map_values(|t: T| t.model()) + ms, cur - (pos + 8) + k),
                    ),
                },
            decreases n - j,
        {
            let step = T::read_bytes(b, cur);
            match step {
                None => {
                    proof {
                        assert(list_elems_dec::<T>(b@.skip(cur as int), (n - j) as nat) is None);
                    }
                    return None;
                },
                Some((x, cur2)) => {
                    proof {
                        let tail_b = b@.skip(cur as int);
                        assert(tail_b.skip(cur2 - cur) =~= b@.skip(cur2 as int));
                        assert(acc@.push(x).map_values(|t: T| t.model()) =~= acc@.map_values(
                            |t: T| t.model(),
                        ) + seq![x.model()]);
                        assert(forall|ms: Seq<T::M>|
                            acc@.map_values(|t: T| t.model()) + (seq![x.model()] + ms) =~= (
                            acc@.map_values(|t: T| t.model()) + seq![x.model()]) + ms);
                    }
                    acc.push(x);
                    cur = cur2;
                    proof {
                        assert(acc@.map_values(|t: T| t.model()) =~= acc@.subrange(
                            0,
                            acc@.len() - 1,
                        ).map_values(|t: T| t.model()) + seq![acc@[acc@.len() - 1].model()]);
                    }
                    j = j + 1;
                },
            }
        }
        proof {
            assert(list_elems_dec::<T>(b@.skip(cur as int), 0) == Some(
                (Seq::<T::M>::empty(), 0int),
            ));
            assert(acc@.map_values(|t: T| t.model()) + Seq::<T::M>::empty() =~= acc@.map_values(
                |t: T| t.model(),
            ));
        }
        Some((acc, cur))
    }

    fn cclone(&self) -> (c: Self) {
        let mut c: Vec<T> = Vec::new();
        let mut i: usize = 0;
        while i < self.len()
            invariant
                0 <= i <= self@.len(),
                c@.len() == i,
                forall|j: int| 0 <= j < i ==> c@[j].model() == self@[j].model(),
                forall|j: int| 0 <= j < i ==> (self@[j].cinv() ==> c@[j].cinv()),
            decreases self@.len() - i,
        {
            c.push(self[i].cclone());
            i = i + 1;
        }
        proof {
            assert(c.model() =~= self.model());
        }
        c
    }
}

} // verus!
// ---- Text ----

verus! {

use vstd::string::StrSliceExecFns;
use vstd::string::StringSliceAdditionalSpecFns;
use vstd::slice::{slice_subrange, slice_to_vec};

/// Relies on String::from_utf8: it succeeds exactly on valid UTF-8 input and
/// the resulting string holds the characters that the bytes encode.
#[verifier::external_body]
fn string_from_utf8(v: Vec<u8>) -> (r: Option<String>)
    ensures
        match r {
            Some(s) => valid_utf8(v@) && s@ == decode_utf8(v@),
            None => !valid_utf8(v@),
        },
{
    String::from_utf8(v).ok()
}

/// Establishes that a string's UTF-8 form has a representable length, which
/// is what `cinv` asks of a text value.
pub fn check_text(s: &String)
    ensures
        s.cinv(),
{
    let bytes = s.as_str().as_bytes();
    let n: usize = bytes.len();
    proof {
        assert(n == encode_utf8(s@).len());
        assert(usize::MAX < 0x1_0000_0000_0000_0000);
    }
}

impl Codec for String {
    type M = Seq<char>;

    open spec fn model(&self) -> Seq<char> {
        self@
    }

    open spec fn cinv(&self) -> bool {
        encode_utf8(self@).len() < 0x1_0000_0000_0000_0000
    }

    open spec fn enc(&self) -> Seq<u8> {
        enc_le(encode_utf8(self@).len() as u64, 8) + encode_utf8(self@)
    }

    open spec fn dec(b: Seq<u8>) -> Option<(Seq<char>, int)> {
        if b.len() < 8 {
            None
        } else {
            let n = dec_le(b.take(8));
            if n > b.len() - 8 {
                None
            } else {
                let payload = b.subrange(8, 8 + n);
                if valid_utf8(payload) {
                    Some((decode_utf8(payload), 8 + n))
                } else {
                    None
                }
            }
        }
    }

    proof fn lemma_dec_span(b: Seq<u8>) {
        if b.len() >= 8 {
            lemma_dec_le_bound(b.take(8));
        }
    }

    proof fn lemma_dec_enc(&self, rest: Seq<u8>) {
        let payload = encode_utf8(self@);
        let n = payload.len();
        lemma_enc_le_len(n as u64, 8);
        assert((self.enc() + rest).take(8) =~= enc_le(n as u64, 8));
        lemma_pow256_8();
        lemma_dec_enc_le(n as u64, 8);
        assert((self.enc() + rest).subrange(8, 8 + n as int) =~= payload);
        vstd::utf8::encode_utf8_valid_utf8(self@);
        vstd::utf8::encode_utf8_decode_utf8(self@);
    }

    fn write_bytes(&self, out: &mut Vec<u8>) {
        let bytes = self.as_str().as_bytes_vec();
        proof {
            vstd::std_specs::vec::axiom_spec_len(&bytes);
        }
        write_u64(out, bytes.len() as u64);
        let mut payload = bytes;
        out.append(&mut payload);
        proof {
            assert(final(out)@ =~= old(out)@ + self.enc());
        }
    }

    fn read_bytes(b: &[u8], pos: usize) -> (r: Option<(Self, usize)>) {
        let ghost whole = b@.skip(pos as int);
        if b.len() - pos < 8 {
            return None;
        }
        let n64 = read_u64(b, pos);
        proof {
            assert(whole.take(8) =~= b@.subrange(pos as int, pos as int + 8));
            lemma_dec_le_bound(b@.subrange(pos as int, pos as int + 8));
            lemma_pow256_8();
        }
        let avail: usize = b.len() - pos - 8;
        if n64 > (avail as u64) {
            return None;
        }
        let n = n64 as usize;
        let payload = slice_to_vec(slice_subrange(b, pos + 8, pos + 8 + n));
        proof {
            assert(payload@ =~= whole.subrange(8, 8 + n as int));
        }
        match string_from_utf8(payload) {
            Some(s) => {
                proof {
                    vstd::utf8::decode_utf8_encode_utf8(whole.subrange(8, 8 + n as int));
                    assert(usize::MAX < 0x1_0000_0000_0000_0000);
                }
                Some((s, pos + 8 + n))
            },
            None => None,
        }
    }

    fn cclone(&self) -> (c: Self) {
        self.clone()
    }
}

} // verus!
// ---- Keyed pairs ----

verus! {

impl<T: Codec> Codec for (u64, T) {
    type M = (u64, T::M);

    open spec fn model(&self) -> (u64, T::M) {
        (self.0, self.1.model())
    }

    open spec fn cinv(&self) -> bool {
        self.1.cinv()
    }

    open spec fn enc(&self) -> Seq<u8> {
        enc_le(self.0, 8) + self.1.enc()
    }

    open spec fn dec(b: Seq<u8>) -> Option<((u64, T::M), int)> {
        if b.len() < 8 {
            None
        } else {
            match T::dec(b.skip(8)) {
                None => None,
                Some((m, k)) => Some(((dec_le(b.take(8)) as u64, m), 8 + k)),
            }
        }
    }

    proof fn lemma_dec_span(b: Seq<u8>) {
        if b.len() >= 8 {
            T::lemma_dec_span(b.skip(8));
        }
    }

    proof fn lemma_dec_enc(&self, rest: Seq<u8>) {
        lemma_enc_le_len(self.0, 8);
        assert((self.enc() + rest).take(8) =~= enc_le(self.0, 8));
        lemma_pow256_8();
        lemma_dec_enc_le(self.0, 8);
        assert((self.enc() + rest).skip(8) =~= self.1.enc() + rest);
        self.1.lemma_dec_enc(rest);
    }

    fn write_bytes(&self, out: &mut Vec<u8>) {
        write_u64(out, self.0);
        self.1.write_bytes(out);
        proof {
            assert(final(out)@ =~= old(out)@ + self.enc());
        }
    }

    fn read_bytes(b: &[u8], pos: usize) -> (r: Option<(Self, usize)>) {
        let ghost whole = b@.skip(pos as int);
        if b.len() - pos < 8 {
            return None;
        }
        let k = read_u64(b, pos);
        proof {
            assert(whole.take(8) =~= b@.subrange(pos as int, pos as int + 8));
            lemma_dec_le_bound(b@.subrange(pos as int, pos as int + 8));
            lemma_pow256_8();
            assert(whole.skip(8) =~= b@.skip(pos + 8));
        }
        match T::read_bytes(b, pos + 8) {
            None => None,
            Some((v, p2)) => {
                proof {
                    assert(b@.skip(pos + 8) =~= whole.skip(8));
                }
                Some(((k, v), p2))
            },
        }
    }

    fn cclone(&self) -> (c: Self) {
        (self.0, self.1.cclone())
    }
}

} // verus!
// ---- Decoding at a position ----

verus! {

/// Prefix decoding starting at `pos`, yielding the position after the field.
pub open spec fn dec_at<A: Codec>(b: Seq<u8>, pos: int) -> Option<(A::M, int)> {
    if 0 <= pos <= b.len() {
        match A::dec(b.skip(pos)) {
            Some((m, k)) => Some((m, pos + k)),
            None => None,
        }
    } else {
        None
    }
}

/// Decoding at the position where a value's encoding lies yields that value's
/// model and stops right after it.
pub proof fn lemma_dec_at<A: Codec>(a: A, b: Seq<u8>, pos: int)
    requires
        a.cinv(),
        0 <= pos,
        pos + a.enc().len() <= b.len(),
        b.subrange(pos, pos + a.enc().len() as int) == a.enc(),
    ensures
        dec_at::<A>(b, pos) == Some((a.model(), pos + a.enc().len() as int)),
{
    assert(b.skip(pos) =~= a.enc() + b.skip(pos + a.enc().len() as int));
    a.lemma_dec_enc(b.skip(pos + a.enc().len() as int));
}

/// A successful `dec_at` never moves backwards nor past the end.
pub proof fn lemma_dec_at_span<A: Codec>(b: Seq<u8>, pos: int)
    ensures
        dec_at::<A>(b, pos) matches Some(p) ==> pos <= p.1 <= b.len(),
{
    if 0 <= pos <= b.len() {
        A::lemma_dec_span(b.skip(pos));
    }
}

} // verus!
// ---- Booleans ----

verus! {

impl Codec for bool {
    type M = bool;

    open spec fn model(&self) -> bool {
        *self
    }

    open spec fn cinv(&self) -> bool {
        true
    }

    open spec fn enc(&self) -> Seq<u8> {
        if *self {
            seq![1u8]
        } else {
            seq![0u8]
        }
    }

    open spec fn dec(b: Seq<u8>) -> Option<(bool, int)> {
        if b.len() < 1 {
            None
        } else if b[0] == 0u8 {
            Some((false, 1))
        } else if b[0] == 1u8 {
            Some((true, 1))
        } else {
            None
        }
    }

    proof fn lemma_dec_span(b: Seq<u8>) {
    }

    proof fn lemma_dec_enc(&self, rest: Seq<u8>) {
        assert((self.enc() + rest)[0] == self.enc()[0]);
    }

    fn write_bytes(&self, out: &mut Vec<u8>) {
        if *self {
            out.push(1u8);
        } else {
            out.push(0u8);
        }
        proof {
            assert(final(out)@ =~= old(out)@ + self.enc());
        }
    }

    fn read_bytes(b: &[u8], pos: usize) -> (r: Option<(Self, usize)>) {
        let ghost w = b@.skip(pos as int);
        if b.len() - pos < 1 {
            return None;
        }
        let tag = b[pos];
        proof {
            assert(w[0] == b@[pos as int]);
        }
        if tag == 0 {
            Some((false, pos + 1))
        } else if tag == 1 {
            Some((true, pos + 1))
        } else {
            None
        }
    }

    fn cclone(&self) -> (c: Self) {
        *self
    }
}

} // verus!
