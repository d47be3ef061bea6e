//! The call descriptor and its byte layout.
//!
//! A descriptor is laid out as: the payload as a length-prefixed byte
//! sequence, the account indices as a length-prefixed byte sequence, the
//! writable and signer flags as two length-prefixed sequences of single-byte
//! booleans (`0` or `1`), and the index of the target program as one
//! trailing byte. Every length prefix is an unsigned 32-bit little-endian
//! integer. The three per-account sequences have equal lengths, and a payload
//! decodes only when every byte of it is consumed.

use vstd::prelude::*;
use crate::error::AaError;

verus! {

/// The structured form of a call that the wallet is asked to make.
#[derive(Clone, Debug)]
pub struct VerveInstruction {
    pub data: Vec<u8>,
    pub account_indices: Vec<u8>,
    pub writable_accounts: Vec<bool>,
    pub signer_accounts: Vec<bool>,
    pub program_account_index: u8,
}

/// The mathematical value of a descriptor.
pub ghost struct DescriptorModel {
    pub data: Seq<u8>,
    pub account_indices: Seq<u8>,
    pub writable_accounts: Seq<bool>,
    pub signer_accounts: Seq<bool>,
    pub program_account_index: u8,
}

impl View for VerveInstruction {
    type V = DescriptorModel;

    open spec fn view(&self) -> DescriptorModel {
        DescriptorModel {
            data: self.data@,
            account_indices: self.account_indices@,
            writable_accounts: self.writable_accounts@,
            signer_accounts: self.signer_accounts@,
            program_account_index: self.program_account_index,
        }
    }
}

pub open spec fn u32_limit() -> nat {
    0x1_0000_0000
}

impl DescriptorModel {
    /// The per-account sequences agree in length, and every sequence fits a
    /// 32-bit length prefix.
    pub open spec fn wf(&self) -> bool {
        &&& self.writable_accounts.len() == self.account_indices.len()
        &&& self.signer_accounts.len() == self.account_indices.len()
        &&& self.data.len() < u32_limit()
        &&& self.account_indices.len() < u32_limit()
    }
}

impl VerveInstruction {
    pub open spec fn wf(&self) -> bool {
        self@.wf()
    }
}

/// The four little-endian bytes of `n`.
pub open spec fn le_u32(n: nat) -> Seq<u8> {
    seq![
        (n % 256) as u8,
        (n / 256 % 256) as u8,
        (n / 65536 % 256) as u8,
        (n / 16777216 % 256) as u8,
    ]
}

/// The number that four little-endian bytes stand for.
pub open spec fn u32_value(b: Seq<u8>) -> nat {
    (b[0] + 256 * b[1] + 65536 * b[2] + 16777216 * b[3]) as nat
}

pub open spec fn enc_bytes(s: Seq<u8>) -> Seq<u8> {
    le_u32(s.len()) + s
}

pub open spec fn bool_byte(x: bool) -> u8 {
    if x { 1 } else { 0 }
}

pub open spec fn enc_bools(s: Seq<bool>) -> Seq<u8> {
    enc_bytes(s.map_values(|x: bool| bool_byte(x)))
}

/// The bytes of a descriptor.
pub open spec fn encode_descriptor(d: DescriptorModel) -> Seq<u8> {
    enc_bytes(d.data) + enc_bytes(d.account_indices) + enc_bools(d.writable_accounts)
        + enc_bools(d.signer_accounts) + seq![d.program_account_index]
}

/// A length prefix, and what follows it.
pub open spec fn read_len(b: Seq<u8>) -> Option<(nat, Seq<u8>)> {
    if b.len() < 4 {
        None
    } else {
        Some((u32_value(b.take(4)), b.skip(4)))
    }
}

/// A length-prefixed byte sequence, and what follows it.
pub open spec fn read_bytes(b: Seq<u8>) -> Option<(Seq<u8>, Seq<u8>)> {
    match read_len(b) {
        None => None,
        Some((n, rest)) => if rest.len() < n {
            None
        } else {
            Some((rest.take(n as int), rest.skip(n as int)))
        },
    }
}

pub open spec fn all_bool_bytes(s: Seq<u8>) -> bool {
    forall|i: int| 0 <= i < s.len() ==> s[i] <= 1
}

/// A length-prefixed boolean sequence, and what follows it.
pub open spec fn read_bools(b: Seq<u8>) -> Option<(Seq<bool>, Seq<u8>)> {
    match read_bytes(b) {
        None => None,
        Some((raw, rest)) => if all_bool_bytes(raw) {
            Some((raw.map_values(|x: u8| x == 1), rest))
        } else {
            None
        },
    }
}

/// The descriptor that a byte string stands for, if any.
pub open spec fn parse_descriptor(b: Seq<u8>) -> Option<DescriptorModel> {
    match read_bytes(b) {
        None => None,
        Some((data, r1)) => match read_bytes(r1) {
            None => None,
            Some((indices, r2)) => match read_bools(r2) {
                None => None,
                Some((writable, r3)) => match read_bools(r3) {
                    None => None,
                    Some((signer, r4)) => if r4.len() == 1 && writable.len() == indices.len()
                        && signer.len() == indices.len() {
                        Some(
                            DescriptorModel {
                                data,
                                account_indices: indices,
                                writable_accounts: writable,
                                signer_accounts: signer,
                                program_account_index: r4[0],
                            },
                        )
                    } else {
                        None
                    },
                },
            },
        },
    }
}

proof fn lemma_le_u32_value(n: nat)
    requires
        n < u32_limit(),
    ensures
        le_u32(n).len() == 4,
        u32_value(le_u32(n)) == n,
{
    let a = n % 256;
    let q1 = n / 256;
    let b = q1 % 256;
    let q2 = q1 / 256;
    let c = q2 % 256;
    let d = q2 / 256;
    assert(n / 65536 == q2);
    assert(n / 16777216 == d);
    assert(d < 256);
    assert(n == a + 256 * b + 65536 * c + 16777216 * d);
}

proof fn lemma_value_le_u32(b: Seq<u8>)
    requires
        b.len() == 4,
    ensures
        u32_value(b) < u32_limit(),
        le_u32(u32_value(b)) =~= b,
{
    let n = u32_value(b);
    let (b0, b1, b2, b3) = (b[0] as nat, b[1] as nat, b[2] as nat, b[3] as nat);
    assert(n == b0 + 256 * b1 + 65536 * b2 + 16777216 * b3);
    assert(n % 256 == b0);
    assert(n / 256 == b1 + 256 * b2 + 65536 * b3);
    assert(n / 65536 == b2 + 256 * b3);
    assert(n / 16777216 == b3);
}

proof fn lemma_read_enc_bytes(s: Seq<u8>, rest: Seq<u8>)
    requires
        s.len() < u32_limit(),
    ensures
        read_bytes(enc_bytes(s) + rest) == Some((s, rest)),
{
    lemma_le_u32_value(s.len());
    let b = enc_bytes(s) + rest;
    assert(b.take(4) =~= le_u32(s.len()));
    assert(b.skip(4) =~= s + rest);
    assert((s + rest).take(s.len() as int) =~= s);
    assert((s + rest).skip(s.len() as int) =~= rest);
}

proof fn lemma_read_bytes_enc(b: Seq<u8>)
    requires
        read_bytes(b) is Some,
    ensures
        ({
            let (v, rest) = read_bytes(b)->0;
            &&& v.len() < u32_limit()
            &&& b == enc_bytes(v) + rest
        }),
{
    let (v, rest) = read_bytes(b)->0;
    lemma_value_le_u32(b.take(4));
    assert(b =~= enc_bytes(v) + rest);
}

proof fn lemma_read_enc_bools(s: Seq<bool>, rest: Seq<u8>)
    requires
        s.len() < u32_limit(),
    ensures
        read_bools(enc_bools(s) + rest) == Some((s, rest)),
{
    let raw = s.map_values(|x: bool| bool_byte(x));
    lemma_read_enc_bytes(raw, rest);
    assert(raw.map_values(|x: u8| x == 1) =~= s);
}

proof fn lemma_read_bools_enc(b: Seq<u8>)
    requires
        read_bools(b) is Some,
    ensures
        ({
            let (v, rest) = read_bools(b)->0;
            &&& v.len() < u32_limit()
            &&& b == enc_bools(v) + rest
        }),
{
    let (raw, rest) = read_bytes(b)->0;
    lemma_read_bytes_enc(b);
    let v = raw.map_values(|x: u8| x == 1);
    assert(v.map_values(|x: bool| bool_byte(x)) =~= raw);
}

/// Decoding the bytes of a well-formed descriptor gives that descriptor back.
pub proof fn lemma_decode_encode(d: DescriptorModel)
    requires
        d.wf(),
    ensures
        parse_descriptor(encode_descriptor(d)) == Some(d),
{
    let tail = seq![d.program_account_index];
    let r3 = enc_bools(d.signer_accounts) + tail;
    let r2 = enc_bools(d.writable_accounts) + r3;
    let r1 = enc_bytes(d.account_indices) + r2;
    assert(encode_descriptor(d) =~= enc_bytes(d.data) + r1);
    lemma_read_enc_bytes(d.data, r1);
    lemma_read_enc_bytes(d.account_indices, r2);
    lemma_read_enc_bools(d.writable_accounts, r3);
    lemma_read_enc_bools(d.signer_accounts, tail);
}

/// Whatever decodes is well formed, and encoding it gives back the bytes it
/// was decoded from.
pub proof fn lemma_encode_decode(b: Seq<u8>)
    requires
        parse_descriptor(b) is Some,
    ensures
        parse_descriptor(b)->0.wf(),
        encode_descriptor(parse_descriptor(b)->0) == b,
{
    let d = parse_descriptor(b)->0;
    let (data, r1) = read_bytes(b)->0;
    let (indices, r2) = read_bytes(r1)->0;
    let (writable, r3) = read_bools(r2)->0;
    let (signer, r4) = read_bools(r3)->0;
    lemma_read_bytes_enc(b);
    lemma_read_bytes_enc(r1);
    lemma_read_bools_enc(r2);
    lemma_read_bools_enc(r3);
    assert(r4 =~= seq![d.program_account_index]);
    assert(b =~= encode_descriptor(d));
}

proof fn lemma_read_bytes_prefix(a: Seq<u8>, b: Seq<u8>)
    requires
        read_bytes(a) is Some,
        a.len() <= b.len(),
        b.take(a.len() as int) == a,
    ensures
        read_bytes(b) is Some,
        (read_bytes(b)->0).0 == (read_bytes(a)->0).0,
        (read_bytes(a)->0).1.len() <= (read_bytes(b)->0).1.len(),
        (read_bytes(b)->0).1.take((read_bytes(a)->0).1.len() as int) == (read_bytes(a)->0).1,
        a.len() - (read_bytes(a)->0).1.len() == b.len() - (read_bytes(b)->0).1.len(),
{
    assert(b.take(4) =~= a.take(4));
    let n = u32_value(a.take(4));
    let sa = a.skip(4);
    let sb = b.skip(4);
    assert(sb.take(sa.len() as int) =~= sa);
    assert(sb.take(n as int) =~= sa.take(n as int));
    assert(sb.skip(n as int).take(sa.skip(n as int).len() as int) =~= sa.skip(n as int));
}

proof fn lemma_read_bools_prefix(a: Seq<u8>, b: Seq<u8>)
    requires
        read_bools(a) is Some,
        a.len() <= b.len(),
        b.take(a.len() as int) == a,
    ensures
        read_bools(b) is Some,
        (read_bools(b)->0).0 == (read_bools(a)->0).0,
        (read_bools(a)->0).1.len() <= (read_bools(b)->0).1.len(),
        (read_bools(b)->0).1.take((read_bools(a)->0).1.len() as int) == (read_bools(a)->0).1,
        a.len() - (read_bools(a)->0).1.len() == b.len() - (read_bools(b)->0).1.len(),
{
    lemma_read_bytes_prefix(a, b);
}

/// No strict prefix of the bytes of a well-formed descriptor decodes: a
/// payload cut short anywhere is refused.
pub proof fn lemma_truncated_rejected(d: DescriptorModel, n: int)
    requires
        d.wf(),
        0 <= n < encode_descriptor(d).len(),
    ensures
        parse_descriptor(encode_descriptor(d).take(n)) is None,
{
    let e = encode_descriptor(d);
    let p = e.take(n);
    lemma_decode_encode(d);
    if parse_descriptor(p) is Some {
        assert(e.take(p.len() as int) =~= p);
        lemma_read_bytes_prefix(p, e);
        let pa = (read_bytes(p)->0).1;
        let ea = (read_bytes(e)->0).1;
        lemma_read_bytes_prefix(pa, ea);
        let pb = (read_bytes(pa)->0).1;
        let eb = (read_bytes(ea)->0).1;
        lemma_read_bools_prefix(pb, eb);
        let pc = (read_bools(pb)->0).1;
        let ec = (read_bools(eb)->0).1;
        lemma_read_bools_prefix(pc, ec);
        assert(false);
    }
}

} // verus!

verus! {

/// Reads a length-prefixed byte sequence that starts at `pos`, and gives the
/// position after it.
fn read_prefixed(b: &[u8], pos: usize) -> (r: Option<(Vec<u8>, usize)>)
    requires
        pos <= b@.len(),
    ensures
        match r {
            Some((v, next)) => pos <= next <= b@.len() && read_bytes(b@.skip(pos as int)) == Some(
                (v@, b@.skip(next as int)),
            ),
            None => read_bytes(b@.skip(pos as int)) is None,
        },
{
    let ghost s = b@.skip(pos as int);
    if b.len() - pos < 4 {
        return None;
    }
    let n: u32 = b[pos] as u32 + 256 * (b[pos + 1] as u32) + 65536 * (b[pos + 2] as u32)
        + 16777216 * (b[pos + 3] as u32);
    assert(s.take(4) =~= seq![b@[pos as int], b@[pos + 1], b@[pos + 2], b@[pos + 3]]);
    assert(n as nat == u32_value(s.take(4)));
    let start = pos + 4;
    assert(s.skip(4) =~= b@.skip(start as int));
    if b.len() - start < n as usize {
        return None;
    }
    let end = start + n as usize;
    let mut v: Vec<u8> = Vec::new();
    let mut i: usize = start;
    while i < end
        invariant
            start <= i <= end <= b@.len(),
            v@ =~= b@.subrange(start as int, i as int),
        decreases end - i,
    {
        v.push(b[i]);
        i = i + 1;
    }
    assert(v@ =~= b@.skip(start as int).take(n as int));
    assert(b@.skip(start as int).skip(n as int) =~= b@.skip(end as int));
    Some((v, end))
}

/// Reads a length-prefixed boolean sequence that starts at `pos`, and gives
/// the position after it.
fn read_flags(b: &[u8], pos: usize) -> (r: Option<(Vec<bool>, usize)>)
    requires
        pos <= b@.len(),
    ensures
        match r {
            Some((v, next)) => pos <= next <= b@.len() && read_bools(b@.skip(pos as int)) == Some(
                (v@, b@.skip(next as int)),
            ),
            None => read_bools(b@.skip(pos as int)) is None,
        },
{
    match read_prefixed(b, pos) {
        None => None,
        Some((raw, next)) => {
            let mut v: Vec<bool> = Vec::new();
            let mut i: usize = 0;
            while i < raw.len()
                invariant
                    i <= raw@.len(),
                    read_bytes(b@.skip(pos as int)) == Some((raw@, b@.skip(next as int))),
                    forall|j: int| 0 <= j < i ==> raw@[j] <= 1,
                    v@ =~= raw@.take(i as int).map_values(|x: u8| x == 1),
                decreases raw@.len() - i,
            {
                if raw[i] > 1 {
                    assert(!all_bool_bytes(raw@));
                    return None;
                }
                v.push(raw[i] == 1);
                i = i + 1;
                assert(v@ =~= raw@.take(i as int).map_values(|x: u8| x == 1));
            }
            assert(raw@.take(i as int) =~= raw@);
            Some((v, next))
        },
    }
}

/// Appends the little-endian length prefix of `n`.
fn push_len(out: &mut Vec<u8>, n: usize)
    requires
        n < u32_limit(),
    ensures
        final(out)@ == old(out)@ + le_u32(n as nat),
{
    out.push((n % 256) as u8);
    out.push((n / 256 % 256) as u8);
    out.push((n / 65536 % 256) as u8);
    out.push((n / 16777216 % 256) as u8);
    assert(out@ =~= old(out)@ + le_u32(n as nat));
}

fn push_bytes(out: &mut Vec<u8>, s: &Vec<u8>)
    requires
        s@.len() < u32_limit(),
    ensures
        final(out)@ == old(out)@ + enc_bytes(s@),
{
    push_len(out, s.len());
    let ghost base = out@;
    let mut i: usize = 0;
    while i < s.len()
        invariant
            i <= s@.len(),
            out@ =~= base + s@.take(i as int),
        decreases s@.len() - i,
    {
        out.push(s[i]);
        i = i + 1;
        assert(out@ =~= base + s@.take(i as int));
    }
    assert(s@.take(i as int) =~= s@);
}

fn push_flags(out: &mut Vec<u8>, s: &Vec<bool>)
    requires
        s@.len() < u32_limit(),
    ensures
        final(out)@ == old(out)@ + enc_bools(s@),
{
    push_len(out, s.len());
    let ghost base = out@;
    let ghost raw = s@.map_values(|x: bool| bool_byte(x));
    let mut i: usize = 0;
    while i < s.len()
        invariant
            i <= s@.len(),
            raw == s@.map_values(|x: bool| bool_byte(x)),
            out@ =~= base + raw.take(i as int),
        decreases s@.len() - i,
    {
        out.push(if s[i] { 1u8 } else { 0u8 });
        i = i + 1;
        assert(out@ =~= base + raw.take(i as int));
    }
    assert(raw.take(i as int) =~= raw);
}

impl VerveInstruction {
    /// Decodes a call descriptor; every byte of the input must be consumed.
    pub fn try_from_slice(b: &[u8]) -> (r: Result<VerveInstruction, AaError>)
        ensures
            match r {
                Ok(d) => parse_descriptor(b@) == Some(d@),
                Err(e) => parse_descriptor(b@) is None && e == AaError::MalformedPayload,
            },
    {
        assert(b@.skip(0) =~= b@);
        let (data, after_data) = match read_prefixed(b, 0) {
            Some(x) => x,
            None => return Err(AaError::MalformedPayload),
        };
        let (account_indices, after_indices) = match read_prefixed(b, after_data) {
            Some(x) => x,
            None => return Err(AaError::MalformedPayload),
        };
        let (writable_accounts, after_writable) = match read_flags(b, after_indices) {
            Some(x) => x,
            None => return Err(AaError::MalformedPayload),
        };
        let (signer_accounts, after_signer) = match read_flags(b, after_writable) {
            Some(x) => x,
            None => return Err(AaError::MalformedPayload),
        };
        assert(read_bytes(b@) == Some((data@, b@.skip(after_data as int))));
        assert(read_bytes(b@.skip(after_data as int)) == Some((account_indices@, b@.skip(after_indices as int))));
        assert(read_bools(b@.skip(after_indices as int)) == Some((writable_accounts@, b@.skip(after_writable as int))));
        assert(read_bools(b@.skip(after_writable as int)) == Some((signer_accounts@, b@.skip(after_signer as int))));
        if b.len() - after_signer != 1 || writable_accounts.len() != account_indices.len()
            || signer_accounts.len() != account_indices.len() {
            return Err(AaError::MalformedPayload);
        }
        let program_account_index = b[after_signer];
        assert(b@.skip(after_signer as int)[0] == program_account_index);
        Ok(VerveInstruction { data, account_indices, writable_accounts, signer_accounts, program_account_index })
    }

    /// Encodes a well-formed call descriptor.
    pub fn try_to_vec(&self) -> (r: Vec<u8>)
        requires
            self.wf(),
        ensures
            r@ == encode_descriptor(self@),
    {
        let mut out: Vec<u8> = Vec::new();
        push_bytes(&mut out, &self.data);
        push_bytes(&mut out, &self.account_indices);
        push_flags(&mut out, &self.writable_accounts);
        push_flags(&mut out, &self.signer_accounts);
        out.push(self.program_account_index);
        assert(out@ =~= encode_descriptor(self@));
        out
    }
}

} // verus!
