//! The bytes that stand for a proof, for whoever checks it elsewhere, and
//! the way back from the bytes to the proof.
//!
//! Numbers are written as eight little-endian bytes, byte strings behind
//! their length, a path as the number of its digests and then the digests.

use vstd::prelude::*;
use vstd::bytes::{spec_u64_from_le_bytes, spec_u64_to_le_bytes, u64_from_le_bytes, u64_to_le_bytes};
use vstd::slice::slice_subrange;
use crate::store::evidence::{Neighbour, NeighbourModel, Proof, ProofModel};
use crate::store::hash::Digest;
use crate::store::key::copy_bytes;
use crate::store::merkle::digests;

verus! {

/// The eight little-endian bytes of a number.
pub open spec fn number(n: nat) -> Seq<u8> {
    spec_u64_to_le_bytes(n as u64)
}

/// A byte string behind its length.
pub open spec fn sized(bytes: Seq<u8>) -> Seq<u8> {
    number(bytes.len()) + bytes
}

/// The digests of a path, one after the other.
pub open spec fn joined(path: Seq<Seq<u8>>) -> Seq<u8>
    decreases path.len(),
{
    if path.len() == 0 {
        Seq::empty()
    } else {
        joined(path.drop_last()) + path.last()
    }
}

/// The bytes that stand for a path: the number of its digests, then the
/// digests.
pub open spec fn path_encoding(path: Seq<Seq<u8>>) -> Seq<u8> {
    number(path.len()) + joined(path)
}

/// The bytes that stand for a neighbour: its index, its key and its value,
/// each behind its length, and its path.
pub open spec fn neighbour_encoding(n: NeighbourModel) -> Seq<u8> {
    number(n.index) + sized(n.key) + sized(n.value) + path_encoding(n.path)
}

/// The bytes that stand for a neighbour that may be missing: a zero byte, or
/// a one byte and the neighbour.
pub open spec fn optional_encoding(n: Option<NeighbourModel>) -> Seq<u8> {
    match n {
        Some(n) => seq![1u8] + neighbour_encoding(n),
        None => seq![0u8],
    }
}

/// The bytes that stand for a proof: a tag byte (one for presence, zero for
/// absence), the number of entries of the state, and the parts of the proof
/// in the order of their declaration.
pub open spec fn encoding(p: ProofModel) -> Seq<u8> {
    match p {
        ProofModel::Exists { total, index, path } => seq![1u8] + number(total) + number(index)
            + path_encoding(path),
        ProofModel::Absent { total, left, right } => seq![0u8] + number(total) + optional_encoding(
            left,
        ) + optional_encoding(right),
    }
}

/// Appends the eight little-endian bytes of `n`.
fn put_number(out: &mut Vec<u8>, n: u64)
    ensures
        final(out)@ == old(out)@ + number(n as nat),
{
    let mut bytes = u64_to_le_bytes(n);
    out.append(&mut bytes);
}

/// Appends `bytes`.
fn put_bytes(out: &mut Vec<u8>, bytes: &[u8])
    ensures
        final(out)@ == old(out)@ + bytes@,
{
    let mut i: usize = 0;
    while i < bytes.len()
        invariant
            0 <= i <= bytes.len(),
            out@ == old(out)@ + bytes@.subrange(0, i as int),
        decreases bytes.len() - i,
    {
        out.push(bytes[i]);
        assert(bytes@.subrange(0, i as int).push(bytes@[i as int]) =~= bytes@.subrange(
            0,
            i as int + 1,
        ));
        i += 1;
    }
    assert(bytes@.subrange(0, i as int) =~= bytes@);
}

/// Appends `bytes` behind their length.
fn put_sized(out: &mut Vec<u8>, bytes: &[u8])
    ensures
        final(out)@ == old(out)@ + sized(bytes@),
{
    put_number(out, bytes.len() as u64);
    put_bytes(out, bytes);
}

/// Appends the encoding of a path.
fn put_path(out: &mut Vec<u8>, path: &Vec<Digest>)
    ensures
        final(out)@ == old(out)@ + path_encoding(digests(path@)),
{
    put_number(out, path.len() as u64);
    let ghost start = out@;
    let mut i: usize = 0;
    assert(joined(digests(path@).take(0)) =~= Seq::<u8>::empty());
    while i < path.len()
        invariant
            0 <= i <= path.len(),
            out@ == start + joined(digests(path@).take(i as int)),
        decreases path.len() - i,
    {
        put_bytes(out, path[i].as_slice());
        proof {
            let next = digests(path@).take(i as int + 1);
            assert(next.drop_last() =~= digests(path@).take(i as int));
            assert(next.last() == path@[i as int]@);
        }
        i += 1;
    }
    assert(digests(path@).take(i as int) =~= digests(path@));
}

/// Appends the encoding of a neighbour that may be missing.
fn put_optional(out: &mut Vec<u8>, n: &Option<Neighbour>)
    ensures
        final(out)@ == old(out)@ + optional_encoding(
            match n {
                Some(n) => Some(n@),
                None => None,
            },
        ),
{
    match n {
        Some(n) => {
            out.push(1u8);
            put_number(out, n.index);
            put_sized(out, n.key.as_slice());
            put_sized(out, n.value.as_slice());
            put_path(out, &n.path);
            assert(out@ =~= old(out)@ + (seq![1u8] + neighbour_encoding(n@)));
        },
        None => {
            out.push(0u8);
            assert(out@ =~= old(out)@ + seq![0u8]);
        },
    }
}

/// What the first eight bytes of `s` say as a number, and what follows
/// them; `None` where `s` is shorter.
pub open spec fn read_number(s: Seq<u8>) -> Option<(nat, Seq<u8>)> {
    if s.len() >= 8 {
        Some((spec_u64_from_le_bytes(s.take(8)) as nat, s.skip(8)))
    } else {
        None
    }
}

/// The byte string that `s` begins with behind its length, and what follows
/// it.
pub open spec fn read_sized(s: Seq<u8>) -> Option<(Seq<u8>, Seq<u8>)> {
    match read_number(s) {
        Some((n, rest)) => if rest.len() >= n {
            Some((rest.take(n as int), rest.skip(n as int)))
        } else {
            None
        },
        None => None,
    }
}

/// The path that `s` begins with, and what follows it.
pub open spec fn read_path(s: Seq<u8>) -> Option<(Seq<Seq<u8>>, Seq<u8>)> {
    match read_number(s) {
        Some((n, rest)) => if rest.len() >= 32 * n {
            Some(
                (
                    Seq::new(n, |k: int| rest.subrange(32 * k, 32 * k + 32)),
                    rest.skip(32 * n as int),
                ),
            )
        } else {
            None
        },
        None => None,
    }
}

/// The neighbour that `s` begins with, and what follows it.
pub open spec fn read_neighbour(s: Seq<u8>) -> Option<(NeighbourModel, Seq<u8>)> {
    match read_number(s) {
        Some((index, s1)) => match read_sized(s1) {
            Some((key, s2)) => match read_sized(s2) {
                Some((value, s3)) => match read_path(s3) {
                    Some((path, s4)) => Some((NeighbourModel { index, key, value, path }, s4)),
                    None => None,
                },
                None => None,
            },
            None => None,
        },
        None => None,
    }
}

/// The neighbour, or the mark of a missing one, that `s` begins with, and
/// what follows it.
pub open spec fn read_optional(s: Seq<u8>) -> Option<(Option<NeighbourModel>, Seq<u8>)> {
    if s.len() == 0 {
        None
    } else if s[0] == 0 {
        Some((None, s.skip(1)))
    } else if s[0] == 1 {
        match read_neighbour(s.skip(1)) {
            Some((n, rest)) => Some((Some(n), rest)),
            None => None,
        }
    } else {
        None
    }
}

/// The proof that the bytes `s` stand for; `None` where they stand for
/// none.
pub open spec fn decoding(s: Seq<u8>) -> Option<ProofModel> {
    if s.len() == 0 {
        None
    } else if s[0] == 1 {
        match read_number(s.skip(1)) {
            Some((total, s1)) => match read_number(s1) {
                Some((index, s2)) => match read_path(s2) {
                    Some((path, s3)) => if s3.len() == 0 {
                        Some(ProofModel::Exists { total, index, path })
                    } else {
                        None
                    },
                    None => None,
                },
                None => None,
            },
            None => None,
        }
    } else if s[0] == 0 {
        match read_number(s.skip(1)) {
            Some((total, s1)) => match read_optional(s1) {
                Some((left, s2)) => match read_optional(s2) {
                    Some((right, s3)) => if s3.len() == 0 {
                        Some(ProofModel::Absent { total, left, right })
                    } else {
                        None
                    },
                    None => None,
                },
                None => None,
            },
            None => None,
        }
    } else {
        None
    }
}

/// Whether a path can be written and read back: it has no more digests than
/// a `u64` can count, each of thirty-two bytes.
pub open spec fn path_fits(path: Seq<Seq<u8>>) -> bool {
    &&& path.len() <= u64::MAX
    &&& forall|k: int| 0 <= k < path.len() ==> (#[trigger] path[k]).len() == 32
}

/// Whether a neighbour can be written and read back: its numbers and
/// lengths fit a `u64`, and its path fits.
pub open spec fn neighbour_fits(n: NeighbourModel) -> bool {
    &&& n.index <= u64::MAX
    &&& n.key.len() <= u64::MAX
    &&& n.value.len() <= u64::MAX
    &&& path_fits(n.path)
}

/// Whether a proof can be written and read back. Every proof that a
/// `Proof` stands for can.
pub open spec fn fits(p: ProofModel) -> bool {
    match p {
        ProofModel::Exists { total, index, path } => {
            &&& total <= u64::MAX
            &&& index <= u64::MAX
            &&& path_fits(path)
        },
        ProofModel::Absent { total, left, right } => {
            &&& total <= u64::MAX
            &&& left matches Some(n) ==> neighbour_fits(n)
            &&& right matches Some(n) ==> neighbour_fits(n)
        },
    }
}

/// A number is read back from its bytes.
pub proof fn lemma_read_number(n: nat, rest: Seq<u8>)
    requires
        n <= u64::MAX,
    ensures
        read_number(number(n) + rest) == Some((n, rest)),
{
    vstd::bytes::lemma_auto_spec_u64_to_from_le_bytes();
    let s = number(n) + rest;
    assert(number(n).len() == 8);
    assert(s.take(8) =~= number(n));
    assert(s.skip(8) =~= rest);
}

/// A byte string is read back from behind its length.
pub proof fn lemma_read_sized(bytes: Seq<u8>, rest: Seq<u8>)
    requires
        bytes.len() <= u64::MAX,
    ensures
        read_sized(sized(bytes) + rest) == Some((bytes, rest)),
{
    assert(sized(bytes) + rest =~= number(bytes.len()) + (bytes + rest));
    lemma_read_number(bytes.len(), bytes + rest);
    assert((bytes + rest).take(bytes.len() as int) =~= bytes);
    assert((bytes + rest).skip(bytes.len() as int) =~= rest);
}

/// The digests of a path lie one behind the other, thirty-two bytes each.
pub proof fn lemma_joined(path: Seq<Seq<u8>>)
    requires
        forall|k: int| 0 <= k < path.len() ==> (#[trigger] path[k]).len() == 32,
    ensures
        joined(path).len() == 32 * path.len(),
        forall|k: int|
            0 <= k < path.len() ==> joined(path).subrange(32 * k, 32 * k + 32) == #[trigger] path[k],
    decreases path.len(),
{
    if path.len() > 0 {
        let front = path.drop_last();
        lemma_joined(front);
        assert forall|k: int| 0 <= k < path.len() implies joined(path).subrange(
            32 * k,
            32 * k + 32,
        ) == #[trigger] path[k] by {
            if k < path.len() - 1 {
                assert(joined(path).subrange(32 * k, 32 * k + 32) =~= joined(front).subrange(
                    32 * k,
                    32 * k + 32,
                ));
                assert(front[k] == path[k]);
            } else {
                assert(joined(path).subrange(32 * k, 32 * k + 32) =~= path.last());
            }
        }
    }
}

/// A path is read back from its bytes.
pub proof fn lemma_read_path(path: Seq<Seq<u8>>, rest: Seq<u8>)
    requires
        path_fits(path),
    ensures
        read_path(path_encoding(path) + rest) == Some((path, rest)),
{
    let n = path.len();
    let body = joined(path) + rest;
    assert(path_encoding(path) + rest =~= number(n) + body);
    lemma_read_number(n, body);
    lemma_joined(path);
    let read = Seq::new(n, |k: int| body.subrange(32 * k, 32 * k + 32));
    assert forall|k: int| 0 <= k < n implies read[k] == path[k] by {
        assert(body.subrange(32 * k, 32 * k + 32) =~= joined(path).subrange(32 * k, 32 * k + 32));
    }
    assert(read =~= path);
    assert(body.skip(32 * n as int) =~= rest);
}

/// A neighbour is read back from its bytes.
pub proof fn lemma_read_neighbour(n: NeighbourModel, rest: Seq<u8>)
    requires
        neighbour_fits(n),
    ensures
        read_neighbour(neighbour_encoding(n) + rest) == Some((n, rest)),
{
    let s3 = path_encoding(n.path) + rest;
    let s2 = sized(n.value) + s3;
    let s1 = sized(n.key) + s2;
    assert(neighbour_encoding(n) + rest =~= number(n.index) + s1);
    lemma_read_number(n.index, s1);
    lemma_read_sized(n.key, s2);
    lemma_read_sized(n.value, s3);
    lemma_read_path(n.path, rest);
}

/// A neighbour that may be missing is read back from its bytes.
pub proof fn lemma_read_optional(n: Option<NeighbourModel>, rest: Seq<u8>)
    requires
        n matches Some(m) ==> neighbour_fits(m),
    ensures
        read_optional(optional_encoding(n) + rest) == Some((n, rest)),
{
    let s = optional_encoding(n) + rest;
    match n {
        Some(m) => {
            assert(s[0] == 1);
            assert(s.skip(1) =~= neighbour_encoding(m) + rest);
            lemma_read_neighbour(m, rest);
        },
        None => {
            assert(s[0] == 0);
            assert(s.skip(1) =~= rest);
        },
    }
}

/// A proof is read back from its bytes: whoever receives the encoding of a
/// proof can decode it to the same proof.
pub proof fn lemma_decoding_of_encoding(p: ProofModel)
    requires
        fits(p),
    ensures
        decoding(encoding(p)) == Some(p),
{
    let s = encoding(p);
    let end = Seq::<u8>::empty();
    match p {
        ProofModel::Exists { total, index, path } => {
            let s2 = path_encoding(path) + end;
            let s1 = number(index) + s2;
            assert(s[0] == 1);
            assert(s.skip(1) =~= number(total) + s1);
            lemma_read_number(total, s1);
            lemma_read_number(index, s2);
            lemma_read_path(path, end);
        },
        ProofModel::Absent { total, left, right } => {
            let s2 = optional_encoding(right) + end;
            let s1 = optional_encoding(left) + s2;
            assert(s[0] == 0);
            assert(s.skip(1) =~= number(total) + s1);
            lemma_read_number(total, s1);
            lemma_read_optional(left, s2);
            lemma_read_optional(right, end);
        },
    }
}

/// Reads a number at `at`.
fn take_number(bytes: &[u8], at: usize) -> (r: Option<(u64, usize)>)
    requires
        at <= bytes.len(),
    ensures
        match r {
            Some((n, next)) => {
                &&& at <= next <= bytes.len()
                &&& read_number(bytes@.skip(at as int)) == Some((n as nat, bytes@.skip(next as int)))
            },
            None => read_number(bytes@.skip(at as int)) is None,
        },
{
    if bytes.len() - at < 8 {
        return None;
    }
    let part = slice_subrange(bytes, at, at + 8);
    let n = u64_from_le_bytes(part);
    proof {
        let s = bytes@.skip(at as int);
        assert(s.take(8) =~= part@);
        assert(s.skip(8) =~= bytes@.skip(at + 8));
    }
    Some((n, at + 8))
}

/// Reads a byte string behind its length at `at`.
fn take_sized(bytes: &[u8], at: usize) -> (r: Option<(Vec<u8>, usize)>)
    requires
        at <= bytes.len(),
    ensures
        match r {
            Some((b, next)) => {
                &&& at <= next <= bytes.len()
                &&& read_sized(bytes@.skip(at as int)) == Some((b@, bytes@.skip(next as int)))
            },
            None => read_sized(bytes@.skip(at as int)) is None,
        },
{
    let (n, start) = match take_number(bytes, at) {
        Some(r) => r,
        None => {
            return None;
        },
    };
    if n as u128 > (bytes.len() - start) as u128 {
        return None;
    }
    let len = n as usize;
    let part = slice_subrange(bytes, start, start + len);
    proof {
        let rest = bytes@.skip(start as int);
        assert(rest.take(len as int) =~= part@);
        assert(rest.skip(len as int) =~= bytes@.skip(start + len));
    }
    Some((copy_bytes(part), start + len))
}

/// Reads the thirty-two bytes at `at` as a digest.
fn take_digest(bytes: &[u8], at: usize) -> (d: Digest)
    requires
        at + 32 <= bytes.len(),
    ensures
        d@ == bytes@.subrange(at as int, at + 32),
{
    let mut d: Digest = [0u8; 32];
    let mut k: usize = 0;
    while k < 32
        invariant
            0 <= k <= 32,
            at + 32 <= bytes.len(),
            forall|j: int| 0 <= j < k ==> d@[j] == bytes@[at + j],
        decreases 32 - k,
    {
        d[k] = bytes[at + k];
        k += 1;
    }
    assert(d@ =~= bytes@.subrange(at as int, at + 32));
    d
}

/// Reads a path at `at`.
fn take_path(bytes: &[u8], at: usize) -> (r: Option<(Vec<Digest>, usize)>)
    requires
        at <= bytes.len(),
    ensures
        match r {
            Some((path, next)) => {
                &&& at <= next <= bytes.len()
                &&& read_path(bytes@.skip(at as int)) == Some(
                    (digests(path@), bytes@.skip(next as int)),
                )
            },
            None => read_path(bytes@.skip(at as int)) is None,
        },
{
    let (n, start) = match take_number(bytes, at) {
        Some(r) => r,
        None => {
            return None;
        },
    };
    if n as u128 > ((bytes.len() - start) / 32) as u128 {
        return None;
    }
    let count = n as usize;
    let ghost rest = bytes@.skip(start as int);
    let mut path: Vec<Digest> = Vec::with_capacity(count);
    let mut k: usize = 0;
    while k < count
        invariant
            0 <= k <= count,
            start + 32 * count <= bytes.len(),
            rest == bytes@.skip(start as int),
            path@.len() == k,
            forall|j: int| 0 <= j < k ==> (#[trigger] path@[j])@ == rest.subrange(32 * j, 32 * j + 32),
        decreases count - k,
    {
        let d = take_digest(bytes, start + 32 * k);
        assert(d@ =~= rest.subrange(32 * k, 32 * k + 32));
        path.push(d);
        k += 1;
    }
    proof {
        assert(digests(path@) =~= Seq::new(n as nat, |k: int| rest.subrange(32 * k, 32 * k + 32)));
        assert(rest.skip(32 * n as int) =~= bytes@.skip(start + 32 * count));
    }
    Some((path, start + 32 * count))
}

/// Reads a neighbour at `at`.
fn take_neighbour(bytes: &[u8], at: usize) -> (r: Option<(Neighbour, usize)>)
    requires
        at <= bytes.len(),
    ensures
        match r {
            Some((n, next)) => {
                &&& at <= next <= bytes.len()
                &&& read_neighbour(bytes@.skip(at as int)) == Some((n@, bytes@.skip(next as int)))
            },
            None => read_neighbour(bytes@.skip(at as int)) is None,
        },
{
    let (index, a) = match take_number(bytes, at) {
        Some(r) => r,
        None => {
            return None;
        },
    };
    let (key, b) = match take_sized(bytes, a) {
        Some(r) => r,
        None => {
            return None;
        },
    };
    let (value, c) = match take_sized(bytes, b) {
        Some(r) => r,
        None => {
            return None;
        },
    };
    let (path, d) = match take_path(bytes, c) {
        Some(r) => r,
        None => {
            return None;
        },
    };
    Some((Neighbour { index, key, value, path }, d))
}

/// Reads a neighbour that may be missing at `at`.
fn take_optional(bytes: &[u8], at: usize) -> (r: Option<(Option<Neighbour>, usize)>)
    requires
        at <= bytes.len(),
    ensures
        match r {
            Some((n, next)) => {
                &&& at <= next <= bytes.len()
                &&& read_optional(bytes@.skip(at as int)) == Some(
                    (
                        match n {
                            Some(n) => Some(n@),
                            None => None,
                        },
                        bytes@.skip(next as int),
                    ),
                )
            },
            None => read_optional(bytes@.skip(at as int)) is None,
        },
{
    if at == bytes.len() {
        return None;
    }
    let tag = bytes[at];
    proof {
        assert(bytes@.skip(at as int)[0] == tag);
        assert(bytes@.skip(at as int).skip(1) =~= bytes@.skip(at + 1));
    }
    if tag == 0 {
        Some((None, at + 1))
    } else if tag == 1 {
        match take_neighbour(bytes, at + 1) {
            Some((n, next)) => Some((Some(n), next)),
            None => None,
        }
    } else {
        None
    }
}

impl Neighbour {
    /// Every neighbour can be written and read back.
    pub proof fn lemma_fits(&self)
        ensures
            neighbour_fits(self@),
    {
        assert(self.path@.len() == self.path.len());
        assert(self.key@.len() == self.key.len());
        assert(self.value@.len() == self.value.len());
        lemma_path_fits(self.path@);
    }
}

impl Proof {
    /// The bytes that stand for the proof.
    pub fn encode(&self) -> (bytes: Vec<u8>)
        ensures
            bytes@ == encoding(self@),
    {
        let mut out: Vec<u8> = Vec::new();
        match self {
            Proof::Exists { total, index, path } => {
                out.push(1u8);
                put_number(&mut out, *total);
                put_number(&mut out, *index);
                put_path(&mut out, path);
                assert(out@ =~= encoding(self@));
            },
            Proof::Absent { total, left, right } => {
                out.push(0u8);
                put_number(&mut out, *total);
                put_optional(&mut out, left);
                put_optional(&mut out, right);
                assert(out@ =~= encoding(self@));
            },
        }
        out
    }

    /// Every proof can be written and read back.
    pub proof fn lemma_fits(&self)
        ensures
            fits(self@),
    {
        match self {
            Proof::Exists { total, index, path } => {
                assert(path@.len() == path.len());
                lemma_path_fits(path@);
            },
            Proof::Absent { total, left, right } => {
                match left {
                    Some(n) => {
                        n.lemma_fits();
                    },
                    None => {},
                }
                match right {
                    Some(n) => {
                        n.lemma_fits();
                    },
                    None => {},
                }
            },
        }
    }

    /// The encoding of this proof decodes to this proof.
    pub proof fn lemma_round_trip(&self)
        ensures
            decoding(encoding(self@)) == Some(self@),
    {
        self.lemma_fits();
        lemma_decoding_of_encoding(self@);
    }

    /// The proof that `bytes` stand for; `None` where they stand for none.
    /// The encoding of a proof decodes to that proof
    /// (`lemma_decoding_of_encoding`).
    pub fn decode(bytes: &[u8]) -> (r: Option<Proof>)
        ensures
            match r {
                Some(p) => decoding(bytes@) == Some(p@),
                None => decoding(bytes@) is None,
            },
    {
        if bytes.len() == 0 {
            return None;
        }
        let tag = bytes[0];
        proof {
            assert(bytes@.skip(0) =~= bytes@);
        }
        if tag == 1 {
            let (total, a) = match take_number(bytes, 1) {
                Some(r) => r,
                None => {
                    return None;
                },
            };
            let (index, b) = match take_number(bytes, a) {
                Some(r) => r,
                None => {
                    return None;
                },
            };
            let (path, c) = match take_path(bytes, b) {
                Some(r) => r,
                None => {
                    return None;
                },
            };
            if c != bytes.len() {
                return None;
            }
            Some(Proof::Exists { total, index, path })
        } else if tag == 0 {
            let (total, a) = match take_number(bytes, 1) {
                Some(r) => r,
                None => {
                    return None;
                },
            };
            let (left, b) = match take_optional(bytes, a) {
                Some(r) => r,
                None => {
                    return None;
                },
            };
            let (right, c) = match take_optional(bytes, b) {
                Some(r) => r,
                None => {
                    return None;
                },
            };
            if c != bytes.len() {
                return None;
            }
            Some(Proof::Absent { total, left, right })
        } else {
            None
        }
    }
}

/// The digests of a list of hashes make a path that fits.
pub proof fn lemma_path_fits(path: Seq<Digest>)
    requires
        path.len() <= usize::MAX,
    ensures
        path_fits(digests(path)),
{
    assert forall|k: int| 0 <= k < digests(path).len() implies (#[trigger] digests(path)[k]).len()
        == 32 by {
        assert(digests(path)[k] == path[k]@);
    }
}

} // verus!
