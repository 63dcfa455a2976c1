//! The serialized cache representation.
//!
//! A resolved reference list is stored in the link cache as bytes, and an
//! identifier's cache key is its serialized canonical form. Both use one
//! length-prefixed little-endian format: decoding the encoding of a value
//! gives the value back (`lemma_references_round_trip`), so the key is
//! collision-free across distinct identifiers
//! (`lemma_canonical_key_injective`).

use vstd::prelude::*;
use vstd::bytes::{
    spec_u32_from_le_bytes, spec_u32_to_le_bytes, spec_u64_from_le_bytes, spec_u64_to_le_bytes,
    u32_from_le_bytes, u32_to_le_bytes, u64_from_le_bytes, u64_to_le_bytes,
    lemma_auto_spec_u32_to_from_le_bytes, lemma_auto_spec_u64_to_from_le_bytes,
};
use vstd::utf8::{
    decode_utf8, encode_utf8, encode_utf8_decode_utf8, encode_utf8_valid_utf8, valid_utf8,
};
use vstd::slice::{slice_subrange, slice_to_vec};
use crate::model::{Identifier, IdentifierModel, IdentifierReference, Position, ReferenceModel,
    SourceRange, references_model};

verus! {

// ---------------------------------------------------------------------------
// The encoding, as a mathematical function of the value.
// ---------------------------------------------------------------------------
pub open spec fn spec_encode_range(r: SourceRange) -> Seq<u8> {
    spec_u32_to_le_bytes(r.start.line) + spec_u32_to_le_bytes(r.start.character)
        + spec_u32_to_le_bytes(r.end.line) + spec_u32_to_le_bytes(r.end.character)
}

pub open spec fn spec_encode_str(s: Seq<char>) -> Seq<u8> {
    spec_u64_to_le_bytes(encode_utf8(s).len() as u64) + encode_utf8(s)
}

pub open spec fn spec_encode_identifier(i: IdentifierModel) -> Seq<u8> {
    spec_encode_str(i.name) + spec_encode_str(i.path) + spec_encode_range(i.range)
}

pub open spec fn spec_encode_range_items(rs: Seq<SourceRange>) -> Seq<u8>
    decreases rs.len(),
{
    if rs.len() == 0 {
        Seq::empty()
    } else {
        spec_encode_range(rs[0]) + spec_encode_range_items(rs.drop_first())
    }
}

pub open spec fn spec_encode_reference(r: ReferenceModel) -> Seq<u8> {
    spec_encode_identifier(r.identifier) + spec_u64_to_le_bytes(r.references.len() as u64)
        + spec_encode_range_items(r.references)
}

pub open spec fn spec_encode_reference_items(rs: Seq<ReferenceModel>) -> Seq<u8>
    decreases rs.len(),
{
    if rs.len() == 0 {
        Seq::empty()
    } else {
        spec_encode_reference(rs[0]) + spec_encode_reference_items(rs.drop_first())
    }
}

pub open spec fn spec_encode_references(rs: Seq<ReferenceModel>) -> Seq<u8> {
    spec_u64_to_le_bytes(rs.len() as u64) + spec_encode_reference_items(rs)
}

// ---------------------------------------------------------------------------
// Values whose lengths fit the format's length prefixes. Every value built
// by executable code is of this kind.
// ---------------------------------------------------------------------------
pub open spec fn str_fits(s: Seq<char>) -> bool {
    encode_utf8(s).len() <= u64::MAX
}

pub open spec fn wf_identifier(i: IdentifierModel) -> bool {
    str_fits(i.name) && str_fits(i.path)
}

pub open spec fn wf_reference(r: ReferenceModel) -> bool {
    wf_identifier(r.identifier) && r.references.len() <= u64::MAX
}

pub open spec fn wf_references(rs: Seq<ReferenceModel>) -> bool {
    rs.len() <= u64::MAX && forall|k: int| 0 <= k < rs.len() ==> wf_reference(#[trigger] rs[k])
}

// ---------------------------------------------------------------------------
// The decoding, as a mathematical function of the bytes and a position.
// ---------------------------------------------------------------------------
pub open spec fn spec_decode_u32(s: Seq<u8>, pos: int) -> Option<(u32, int)> {
    if 0 <= pos && pos + 4 <= s.len() {
        Some((spec_u32_from_le_bytes(s.subrange(pos, pos + 4)), pos + 4))
    } else {
        None
    }
}

pub open spec fn spec_decode_u64(s: Seq<u8>, pos: int) -> Option<(u64, int)> {
    if 0 <= pos && pos + 8 <= s.len() {
        Some((spec_u64_from_le_bytes(s.subrange(pos, pos + 8)), pos + 8))
    } else {
        None
    }
}

pub open spec fn spec_decode_range(s: Seq<u8>, pos: int) -> Option<(SourceRange, int)> {
    match spec_decode_u32(s, pos) {
        None => None,
        Some((sl, p1)) => match spec_decode_u32(s, p1) {
            None => None,
            Some((sc, p2)) => match spec_decode_u32(s, p2) {
                None => None,
                Some((el, p3)) => match spec_decode_u32(s, p3) {
                    None => None,
                    Some((ec, p4)) => Some(
                        (
                            SourceRange {
                                start: Position { line: sl, character: sc },
                                end: Position { line: el, character: ec },
                            },
                            p4,
                        ),
                    ),
                },
            },
        },
    }
}

pub open spec fn spec_decode_str(s: Seq<u8>, pos: int) -> Option<(Seq<char>, int)> {
    match spec_decode_u64(s, pos) {
        None => None,
        Some((n, p)) => if p + n <= s.len() && valid_utf8(s.subrange(p, p + n)) {
            Some((decode_utf8(s.subrange(p, p + n)), p + n))
        } else {
            None
        },
    }
}

pub open spec fn spec_decode_identifier(s: Seq<u8>, pos: int) -> Option<(IdentifierModel, int)> {
    match spec_decode_str(s, pos) {
        None => None,
        Some((name, p1)) => match spec_decode_str(s, p1) {
            None => None,
            Some((path, p2)) => match spec_decode_range(s, p2) {
                None => None,
                Some((range, p3)) => Some((IdentifierModel { name, path, range }, p3)),
            },
        },
    }
}

pub open spec fn spec_decode_range_items(s: Seq<u8>, pos: int, n: nat) -> Option<
    (Seq<SourceRange>, int),
>
    decreases n,
{
    if n == 0 {
        Some((Seq::empty(), pos))
    } else {
        match spec_decode_range(s, pos) {
            None => None,
            Some((r, p)) => match spec_decode_range_items(s, p, (n - 1) as nat) {
                None => None,
                Some((tail, e)) => Some((seq![r] + tail, e)),
            },
        }
    }
}

pub open spec fn spec_decode_reference(s: Seq<u8>, pos: int) -> Option<(ReferenceModel, int)> {
    match spec_decode_identifier(s, pos) {
        None => None,
        Some((identifier, p1)) => match spec_decode_u64(s, p1) {
            None => None,
            Some((n, p2)) => match spec_decode_range_items(s, p2, n as nat) {
                None => None,
                Some((references, p3)) => Some((ReferenceModel { identifier, references }, p3)),
            },
        },
    }
}

pub open spec fn spec_decode_reference_items(s: Seq<u8>, pos: int, n: nat) -> Option<
    (Seq<ReferenceModel>, int),
>
    decreases n,
{
    if n == 0 {
        Some((Seq::empty(), pos))
    } else {
        match spec_decode_reference(s, pos) {
            None => None,
            Some((r, p)) => match spec_decode_reference_items(s, p, (n - 1) as nat) {
                None => None,
                Some((tail, e)) => Some((seq![r] + tail, e)),
            },
        }
    }
}

/// Decode a whole cache value: a reference list that consumes the bytes
/// exactly.
pub open spec fn spec_decode_references(s: Seq<u8>) -> Option<Seq<ReferenceModel>> {
    match spec_decode_u64(s, 0) {
        None => None,
        Some((n, p)) => match spec_decode_reference_items(s, p, n as nat) {
            None => None,
            Some((rs, e)) => if e == s.len() {
                Some(rs)
            } else {
                None
            },
        },
    }
}

// ---------------------------------------------------------------------------
// Splitting a window of bytes that holds a concatenation.
// ---------------------------------------------------------------------------
proof fn lemma_subrange_split(s: Seq<u8>, pos: int, a: Seq<u8>, b: Seq<u8>)
    requires
        0 <= pos,
        pos + a.len() + b.len() <= s.len(),
        s.subrange(pos, pos + a.len() + b.len()) == a + b,
    ensures
        s.subrange(pos, pos + a.len()) == a,
        s.subrange(pos + a.len(), pos + a.len() + b.len()) == b,
{
    let w = s.subrange(pos, pos + a.len() + b.len());
    assert forall|i: int| 0 <= i < a.len() implies s.subrange(pos, pos + a.len() as int)[i]
        == a[i] by {
        assert(w[i] == (a + b)[i]);
    }
    assert(s.subrange(pos, pos + a.len()) =~= a);
    assert forall|i: int| 0 <= i < b.len() implies s.subrange(
        pos + a.len(),
        pos + a.len() + b.len(),
    )[i] == b[i] by {
        assert(w[a.len() + i] == (a + b)[a.len() + i]);
    }
    assert(s.subrange(pos + a.len(), pos + a.len() + b.len()) =~= b);
}

// ---------------------------------------------------------------------------
// Decoding inverts encoding, part by part.
// ---------------------------------------------------------------------------
proof fn lemma_decode_encode_u32(s: Seq<u8>, pos: int, x: u32)
    requires
        0 <= pos,
        pos + 4 <= s.len(),
        s.subrange(pos, pos + 4) == spec_u32_to_le_bytes(x),
    ensures
        spec_decode_u32(s, pos) == Some((x, pos + 4)),
{
    lemma_auto_spec_u32_to_from_le_bytes();
    assert(spec_u32_to_le_bytes(x).len() == 4);
    assert(spec_u32_from_le_bytes(spec_u32_to_le_bytes(x)) == x);
}

proof fn lemma_decode_encode_u64(s: Seq<u8>, pos: int, x: u64)
    requires
        0 <= pos,
        pos + 8 <= s.len(),
        s.subrange(pos, pos + 8) == spec_u64_to_le_bytes(x),
    ensures
        spec_decode_u64(s, pos) == Some((x, pos + 8)),
{
    lemma_auto_spec_u64_to_from_le_bytes();
    assert(spec_u64_to_le_bytes(x).len() == 8);
    assert(spec_u64_from_le_bytes(spec_u64_to_le_bytes(x)) == x);
}

proof fn lemma_decode_encode_range(s: Seq<u8>, pos: int, r: SourceRange)
    requires
        0 <= pos,
        pos + 16 <= s.len(),
        s.subrange(pos, pos + 16) == spec_encode_range(r),
    ensures
        spec_encode_range(r).len() == 16,
        spec_decode_range(s, pos) == Some((r, pos + 16)),
{
    lemma_auto_spec_u32_to_from_le_bytes();
    let a = spec_u32_to_le_bytes(r.start.line);
    let b = spec_u32_to_le_bytes(r.start.character);
    let c = spec_u32_to_le_bytes(r.end.line);
    let d = spec_u32_to_le_bytes(r.end.character);
    assert(s.subrange(pos, pos + 16) == a + (b + (c + d))) by {
        assert(a + (b + (c + d)) =~= a + b + c + d);
    }
    lemma_subrange_split(s, pos, a, b + (c + d));
    lemma_subrange_split(s, pos + 4, b, c + d);
    lemma_subrange_split(s, pos + 8, c, d);
    lemma_decode_encode_u32(s, pos, r.start.line);
    lemma_decode_encode_u32(s, pos + 4, r.start.character);
    lemma_decode_encode_u32(s, pos + 8, r.end.line);
    lemma_decode_encode_u32(s, pos + 12, r.end.character);
}

proof fn lemma_decode_encode_str(s: Seq<u8>, pos: int, cs: Seq<char>)
    requires
        0 <= pos,
        str_fits(cs),
        pos + spec_encode_str(cs).len() <= s.len(),
        s.subrange(pos, pos + spec_encode_str(cs).len()) == spec_encode_str(cs),
    ensures
        spec_encode_str(cs).len() == 8 + encode_utf8(cs).len(),
        spec_decode_str(s, pos) == Some((cs, pos + spec_encode_str(cs).len())),
{
    lemma_auto_spec_u64_to_from_le_bytes();
    let b = encode_utf8(cs);
    let hdr = spec_u64_to_le_bytes(b.len() as u64);
    lemma_subrange_split(s, pos, hdr, b);
    lemma_decode_encode_u64(s, pos, b.len() as u64);
    encode_utf8_valid_utf8(cs);
    encode_utf8_decode_utf8(cs);
    assert((b.len() as u64) as int == b.len() as int);
    assert(s.subrange(pos + 8, pos + 8 + b.len()) == b);
}

proof fn lemma_decode_encode_identifier(s: Seq<u8>, pos: int, i: IdentifierModel)
    requires
        0 <= pos,
        wf_identifier(i),
        pos + spec_encode_identifier(i).len() <= s.len(),
        s.subrange(pos, pos + spec_encode_identifier(i).len()) == spec_encode_identifier(i),
    ensures
        spec_decode_identifier(s, pos) == Some((i, pos + spec_encode_identifier(i).len())),
{
    let a = spec_encode_str(i.name);
    let b = spec_encode_str(i.path);
    let c = spec_encode_range(i.range);
    lemma_auto_spec_u32_to_from_le_bytes();
    assert(c.len() == 16);
    assert(s.subrange(pos, pos + spec_encode_identifier(i).len()) == a + (b + c)) by {
        assert(a + (b + c) =~= a + b + c);
    }
    lemma_subrange_split(s, pos, a, b + c);
    lemma_subrange_split(s, pos + a.len(), b, c);
    lemma_decode_encode_str(s, pos, i.name);
    lemma_decode_encode_str(s, pos + a.len(), i.path);
    lemma_decode_encode_range(s, pos + a.len() + b.len(), i.range);
}

proof fn lemma_decode_encode_range_items(s: Seq<u8>, pos: int, rs: Seq<SourceRange>)
    requires
        0 <= pos,
        pos + spec_encode_range_items(rs).len() <= s.len(),
        s.subrange(pos, pos + spec_encode_range_items(rs).len()) == spec_encode_range_items(rs),
    ensures
        spec_decode_range_items(s, pos, rs.len()) == Some(
            (rs, pos + spec_encode_range_items(rs).len()),
        ),
    decreases rs.len(),
{
    if rs.len() == 0 {
        assert(rs =~= Seq::<SourceRange>::empty());
    } else {
        let hd = spec_encode_range(rs[0]);
        let tl = spec_encode_range_items(rs.drop_first());
        lemma_auto_spec_u32_to_from_le_bytes();
        assert(hd.len() == 16);
        lemma_subrange_split(s, pos, hd, tl);
        lemma_decode_encode_range(s, pos, rs[0]);
        lemma_decode_encode_range_items(s, pos + 16, rs.drop_first());
        assert(seq![rs[0]] + rs.drop_first() =~= rs);
    }
}

proof fn lemma_decode_encode_reference(s: Seq<u8>, pos: int, r: ReferenceModel)
    requires
        0 <= pos,
        wf_reference(r),
        pos + spec_encode_reference(r).len() <= s.len(),
        s.subrange(pos, pos + spec_encode_reference(r).len()) == spec_encode_reference(r),
    ensures
        spec_decode_reference(s, pos) == Some((r, pos + spec_encode_reference(r).len())),
{
    let a = spec_encode_identifier(r.identifier);
    let b = spec_u64_to_le_bytes(r.references.len() as u64);
    let c = spec_encode_range_items(r.references);
    lemma_auto_spec_u64_to_from_le_bytes();
    assert(s.subrange(pos, pos + spec_encode_reference(r).len()) == a + (b + c)) by {
        assert(a + (b + c) =~= a + b + c);
    }
    lemma_subrange_split(s, pos, a, b + c);
    lemma_subrange_split(s, pos + a.len(), b, c);
    lemma_decode_encode_identifier(s, pos, r.identifier);
    lemma_decode_encode_u64(s, pos + a.len(), r.references.len() as u64);
    assert((r.references.len() as u64) as nat == r.references.len());
    lemma_decode_encode_range_items(s, pos + a.len() + 8, r.references);
}

proof fn lemma_decode_encode_reference_items(s: Seq<u8>, pos: int, rs: Seq<ReferenceModel>)
    requires
        0 <= pos,
        forall|k: int| 0 <= k < rs.len() ==> wf_reference(#[trigger] rs[k]),
        pos + spec_encode_reference_items(rs).len() <= s.len(),
        s.subrange(pos, pos + spec_encode_reference_items(rs).len())
            == spec_encode_reference_items(rs),
    ensures
        spec_decode_reference_items(s, pos, rs.len()) == Some(
            (rs, pos + spec_encode_reference_items(rs).len()),
        ),
    decreases rs.len(),
{
    if rs.len() == 0 {
        assert(rs =~= Seq::<ReferenceModel>::empty());
    } else {
        let hd = spec_encode_reference(rs[0]);
        let tl = spec_encode_reference_items(rs.drop_first());
        lemma_subrange_split(s, pos, hd, tl);
        lemma_decode_encode_reference(s, pos, rs[0]);
        assert(forall|k: int|
            0 <= k < rs.drop_first().len() ==> wf_reference(#[trigger] rs.drop_first()[k]));
        lemma_decode_encode_reference_items(s, pos + hd.len(), rs.drop_first());
        assert(seq![rs[0]] + rs.drop_first() =~= rs);
    }
}

/// Decoding the encoding of any reference list whose lengths fit the
/// format gives the list back: the stored bytes of a resolution determine
/// it exactly.
pub proof fn lemma_references_round_trip(rs: Seq<ReferenceModel>)
    requires
        wf_references(rs),
    ensures
        spec_decode_references(spec_encode_references(rs)) == Some(rs),
{
    let s = spec_encode_references(rs);
    let hdr = spec_u64_to_le_bytes(rs.len() as u64);
    let items = spec_encode_reference_items(rs);
    lemma_auto_spec_u64_to_from_le_bytes();
    assert(s.subrange(0, s.len() as int) =~= s);
    lemma_subrange_split(s, 0, hdr, items);
    lemma_decode_encode_u64(s, 0, rs.len() as u64);
    assert((rs.len() as u64) as nat == rs.len());
    lemma_decode_encode_reference_items(s, 8, rs);
}

/// The canonical key's length: an eight-byte length prefix and the bytes
/// of each of the two strings, then a sixteen-byte range. In particular a
/// canonical key is never empty.
pub proof fn lemma_encode_identifier_len(i: IdentifierModel)
    ensures
        spec_encode_identifier(i).len() == 32 + encode_utf8(i.name).len() + encode_utf8(
            i.path,
        ).len(),
{
    lemma_auto_spec_u32_to_from_le_bytes();
    lemma_auto_spec_u64_to_from_le_bytes();
}

/// Two identifiers with the same canonical key are the same identifier:
/// the key form is collision-free.
pub proof fn lemma_canonical_key_injective(a: IdentifierModel, b: IdentifierModel)
    requires
        wf_identifier(a),
        wf_identifier(b),
        spec_encode_identifier(a) == spec_encode_identifier(b),
    ensures
        a == b,
{
    let s = spec_encode_identifier(a);
    assert(s.subrange(0, s.len() as int) =~= s);
    lemma_decode_encode_identifier(s, 0, a);
    lemma_decode_encode_identifier(s, 0, b);
}


// ---------------------------------------------------------------------------
// Executable encoding.
// ---------------------------------------------------------------------------
fn push_u32(out: &mut Vec<u8>, x: u32)
    ensures
        final(out)@ == old(out)@ + spec_u32_to_le_bytes(x),
{
    let mut b = u32_to_le_bytes(x);
    out.append(&mut b);
}

fn push_u64(out: &mut Vec<u8>, x: u64)
    ensures
        final(out)@ == old(out)@ + spec_u64_to_le_bytes(x),
{
    let mut b = u64_to_le_bytes(x);
    out.append(&mut b);
}

fn push_range(out: &mut Vec<u8>, r: SourceRange)
    ensures
        final(out)@ == old(out)@ + spec_encode_range(r),
{
    push_u32(out, r.start.line);
    push_u32(out, r.start.character);
    push_u32(out, r.end.line);
    push_u32(out, r.end.character);
    proof {
        assert(out@ =~= old(out)@ + spec_encode_range(r));
    }
}

fn push_str(out: &mut Vec<u8>, s: &String)
    ensures
        final(out)@ == old(out)@ + spec_encode_str(s@),
        str_fits(s@),
{
    let bytes: &[u8] = s.as_str().as_bytes();
    let n: usize = bytes.len();
    push_u64(out, n as u64);
    out.extend_from_slice(bytes);
    proof {
        assert(out@ =~= old(out)@ + spec_encode_str(s@));
    }
}

fn push_identifier(out: &mut Vec<u8>, i: &Identifier)
    ensures
        final(out)@ == old(out)@ + spec_encode_identifier(i@),
        wf_identifier(i@),
{
    push_str(out, &i.name);
    push_str(out, &i.path);
    push_range(out, i.range);
    proof {
        assert(out@ =~= old(out)@ + spec_encode_identifier(i@));
    }
}

proof fn lemma_encode_range_items_push(rs: Seq<SourceRange>, x: SourceRange)
    ensures
        spec_encode_range_items(rs.push(x)) == spec_encode_range_items(rs) + spec_encode_range(x),
    decreases rs.len(),
{
    if rs.len() == 0 {
        assert(rs.push(x).drop_first() =~= Seq::<SourceRange>::empty());
        assert(rs =~= Seq::<SourceRange>::empty());
        assert(spec_encode_range_items(rs.push(x)) =~= spec_encode_range_items(rs)
            + spec_encode_range(x));
    } else {
        assert(rs.push(x).drop_first() =~= rs.drop_first().push(x));
        lemma_encode_range_items_push(rs.drop_first(), x);
        assert(spec_encode_range_items(rs.push(x)) =~= spec_encode_range_items(rs)
            + spec_encode_range(x));
    }
}

proof fn lemma_encode_reference_items_push(rs: Seq<ReferenceModel>, x: ReferenceModel)
    ensures
        spec_encode_reference_items(rs.push(x)) == spec_encode_reference_items(rs)
            + spec_encode_reference(x),
    decreases rs.len(),
{
    if rs.len() == 0 {
        assert(rs.push(x).drop_first() =~= Seq::<ReferenceModel>::empty());
        assert(rs =~= Seq::<ReferenceModel>::empty());
        assert(spec_encode_reference_items(rs.push(x)) =~= spec_encode_reference_items(rs)
            + spec_encode_reference(x));
    } else {
        assert(rs.push(x).drop_first() =~= rs.drop_first().push(x));
        lemma_encode_reference_items_push(rs.drop_first(), x);
        assert(spec_encode_reference_items(rs.push(x)) =~= spec_encode_reference_items(rs)
            + spec_encode_reference(x));
    }
}

fn push_reference(out: &mut Vec<u8>, r: &IdentifierReference)
    ensures
        final(out)@ == old(out)@ + spec_encode_reference(r@),
        wf_reference(r@),
{
    push_identifier(out, &r.identifier);
    push_u64(out, r.references.len() as u64);
    let n = r.references.len();
    let mut i: usize = 0;
    while i < n
        invariant
            i <= n,
            n == r.references@.len(),
            out@ == old(out)@ + spec_encode_identifier(r.identifier@) + spec_u64_to_le_bytes(
                r.references@.len() as u64,
            ) + spec_encode_range_items(r.references@.subrange(0, i as int)),
        decreases n - i,
    {
        push_range(out, r.references[i]);
        proof {
            lemma_encode_range_items_push(
                r.references@.subrange(0, i as int),
                r.references@[i as int],
            );
            assert(r.references@.subrange(0, i as int + 1) =~= r.references@.subrange(
                0,
                i as int,
            ).push(r.references@[i as int]));
        }
        i += 1;
    }
    proof {
        assert(r.references@.subrange(0, n as int) =~= r.references@);
        assert(out@ =~= old(out)@ + spec_encode_reference(r@));
    }
}

/// Serialize a (possibly empty) reference list into the cache value form.
pub fn encode_references(refs: &Vec<IdentifierReference>) -> (out: Vec<u8>)
    ensures
        out@ == spec_encode_references(references_model(refs@)),
        wf_references(references_model(refs@)),
{
    let mut out: Vec<u8> = Vec::new();
    push_u64(&mut out, refs.len() as u64);
    let n = refs.len();
    let mut i: usize = 0;
    while i < n
        invariant
            i <= n,
            n == refs@.len(),
            forall|k: int| 0 <= k < i ==> wf_reference(#[trigger] references_model(refs@)[k]),
            out@ == spec_u64_to_le_bytes(refs@.len() as u64) + spec_encode_reference_items(
                references_model(refs@).subrange(0, i as int),
            ),
        decreases n - i,
    {
        push_reference(&mut out, &refs[i]);
        proof {
            lemma_encode_reference_items_push(
                references_model(refs@).subrange(0, i as int),
                references_model(refs@)[i as int],
            );
            assert(references_model(refs@).subrange(0, i as int + 1) =~= references_model(
                refs@,
            ).subrange(0, i as int).push(references_model(refs@)[i as int]));
        }
        i += 1;
    }
    proof {
        assert(references_model(refs@).subrange(0, n as int) =~= references_model(refs@));
    }
    out
}

/// Serialize an identifier into its canonical cache key. The key pins the
/// identifier down: see `lemma_canonical_key_injective`.
pub fn canonical_key(i: &Identifier) -> (out: Vec<u8>)
    ensures
        out@ == spec_encode_identifier(i@),
        wf_identifier(i@),
{
    let mut out: Vec<u8> = Vec::new();
    push_identifier(&mut out, i);
    proof {
        assert(out@ =~= spec_encode_identifier(i@));
    }
    out
}

// ---------------------------------------------------------------------------
// Executable decoding.
// ---------------------------------------------------------------------------
/// Relies on std's String::from_utf8: it returns the string of the given
/// bytes exactly when they are valid UTF-8.
#[verifier::external_body]
fn string_from_utf8(v: Vec<u8>) -> (r: Option<String>)
    ensures
        r is Some <==> valid_utf8(v@),
        r is Some ==> r.unwrap()@ == decode_utf8(v@),
{
    String::from_utf8(v).ok()
}

fn read_u32(data: &Vec<u8>, pos: usize) -> (r: Option<(u32, usize)>)
    ensures
        match r {
            Some((x, p)) => spec_decode_u32(data@, pos as int) == Some((x, p as int)),
            None => spec_decode_u32(data@, pos as int) is None,
        },
{
    if data.len() >= 4 && pos <= data.len() - 4 {
        let x = u32_from_le_bytes(slice_subrange(data.as_slice(), pos, pos + 4));
        Some((x, pos + 4))
    } else {
        None
    }
}

fn read_u64(data: &Vec<u8>, pos: usize) -> (r: Option<(u64, usize)>)
    ensures
        match r {
            Some((x, p)) => spec_decode_u64(data@, pos as int) == Some((x, p as int)),
            None => spec_decode_u64(data@, pos as int) is None,
        },
{
    if data.len() >= 8 && pos <= data.len() - 8 {
        let x = u64_from_le_bytes(slice_subrange(data.as_slice(), pos, pos + 8));
        Some((x, pos + 8))
    } else {
        None
    }
}

fn read_range(data: &Vec<u8>, pos: usize) -> (r: Option<(SourceRange, usize)>)
    ensures
        match r {
            Some((x, p)) => spec_decode_range(data@, pos as int) == Some((x, p as int)),
            None => spec_decode_range(data@, pos as int) is None,
        },
{
    let (sl, p1) = match read_u32(data, pos) {
        None => { return None; },
        Some(v) => v,
    };
    let (sc, p2) = match read_u32(data, p1) {
        None => { return None; },
        Some(v) => v,
    };
    let (el, p3) = match read_u32(data, p2) {
        None => { return None; },
        Some(v) => v,
    };
    let (ec, p4) = match read_u32(data, p3) {
        None => { return None; },
        Some(v) => v,
    };
    Some(
        (
            SourceRange {
                start: Position { line: sl, character: sc },
                end: Position { line: el, character: ec },
            },
            p4,
        ),
    )
}

fn read_str(data: &Vec<u8>, pos: usize) -> (r: Option<(String, usize)>)
    ensures
        match r {
            Some((s, p)) => spec_decode_str(data@, pos as int) == Some((s@, p as int)),
            None => spec_decode_str(data@, pos as int) is None,
        },
{
    let (n64, p) = match read_u64(data, pos) {
        None => { return None; },
        Some(v) => v,
    };
    let remaining: usize = data.len() - p;
    if n64 > remaining as u64 {
        return None;
    }
    let n: usize = n64 as usize;
    let sub: Vec<u8> = slice_to_vec(slice_subrange(data.as_slice(), p, p + n));
    match string_from_utf8(sub) {
        None => None,
        Some(s) => Some((s, p + n)),
    }
}

fn read_identifier(data: &Vec<u8>, pos: usize) -> (r: Option<(Identifier, usize)>)
    ensures
        match r {
            Some((i, p)) => spec_decode_identifier(data@, pos as int) == Some((i@, p as int)),
            None => spec_decode_identifier(data@, pos as int) is None,
        },
{
    let (name, p1) = match read_str(data, pos) {
        None => { return None; },
        Some(v) => v,
    };
    let (path, p2) = match read_str(data, p1) {
        None => { return None; },
        Some(v) => v,
    };
    let (range, p3) = match read_range(data, p2) {
        None => { return None; },
        Some(v) => v,
    };
    Some((Identifier { name, path, range }, p3))
}

fn read_reference(data: &Vec<u8>, pos: usize) -> (r: Option<(IdentifierReference, usize)>)
    ensures
        match r {
            Some((x, p)) => spec_decode_reference(data@, pos as int) == Some((x@, p as int)),
            None => spec_decode_reference(data@, pos as int) is None,
        },
{
    let (identifier, p1) = match read_identifier(data, pos) {
        None => { return None; },
        Some(v) => v,
    };
    let (n, p2) = match read_u64(data, p1) {
        None => { return None; },
        Some(v) => v,
    };
    let mut references: Vec<SourceRange> = Vec::new();
    let mut cur: usize = p2;
    let mut i: u64 = 0;
    while i < n
        invariant
            i <= n,
            references@.len() == i,
            spec_decode_identifier(data@, pos as int) == Some((identifier@, p1 as int)),
            spec_decode_u64(data@, p1 as int) == Some((n, p2 as int)),
            spec_decode_range_items(data@, p2 as int, n as nat) == match spec_decode_range_items(
                data@,
                cur as int,
                (n - i) as nat,
            ) {
                Some((tail, e)) => Some((references@ + tail, e)),
                None => None::<(Seq<SourceRange>, int)>,
            },
        decreases n - i,
    {
        let (rg, p) = match read_range(data, cur) {
            None => {
                proof {
                    assert((n - i) as nat != 0);
                    assert(spec_decode_range_items(data@, cur as int, (n - i) as nat) is None);
                }
                return None;
            },
            Some(v) => v,
        };
        proof {
            assert(n - i > 0);
            let pre = references@;
            match spec_decode_range_items(data@, p as int, (n - i - 1) as nat) {
                Some((tail2, e2)) => {
                    assert(pre + (seq![rg] + tail2) =~= pre.push(rg) + tail2);
                },
                None => {},
            }
        }
        references.push(rg);
        cur = p;
        i += 1;
    }
    proof {
        assert(spec_decode_range_items(data@, cur as int, 0) == Some(
            (Seq::<SourceRange>::empty(), cur as int),
        ));
        assert(references@ + Seq::<SourceRange>::empty() =~= references@);
    }
    Some((IdentifierReference { identifier, references }, cur))
}


/// Deserialize a cache value. `None` means the bytes are not the encoding
/// of any reference list: a malformed entry, which resolution treats as
/// fatal rather than substituting a default.
pub fn decode_references(data: &Vec<u8>) -> (r: Option<Vec<IdentifierReference>>)
    ensures
        match r {
            Some(refs) => spec_decode_references(data@) == Some(references_model(refs@)),
            None => spec_decode_references(data@) is None,
        },
{
    let (n, p) = match read_u64(data, 0) {
        None => { return None; },
        Some(v) => v,
    };
    let mut refs: Vec<IdentifierReference> = Vec::new();
    let mut cur: usize = p;
    let mut i: u64 = 0;
    while i < n
        invariant
            i <= n,
            refs@.len() == i,
            spec_decode_u64(data@, 0) == Some((n, p as int)),
            spec_decode_reference_items(data@, p as int, n as nat)
                == match spec_decode_reference_items(data@, cur as int, (n - i) as nat) {
                Some((tail, e)) => Some((references_model(refs@) + tail, e)),
                None => None::<(Seq<ReferenceModel>, int)>,
            },
        decreases n - i,
    {
        let (x, q) = match read_reference(data, cur) {
            None => {
                proof {
                    assert((n - i) as nat != 0);
                    assert(spec_decode_reference_items(data@, cur as int, (n - i) as nat) is None);
                }
                return None;
            },
            Some(v) => v,
        };
        proof {
            assert(n - i > 0);
            let pre = references_model(refs@);
            match spec_decode_reference_items(data@, q as int, (n - i - 1) as nat) {
                Some((tail2, e2)) => {
                    assert(pre + (seq![x@] + tail2) =~= pre.push(x@) + tail2);
                },
                None => {},
            }
        }
        refs.push(x);
        proof {
            assert(references_model(refs@) =~= references_model(refs@.drop_last()).push(x@));
        }
        cur = q;
        i += 1;
    }
    proof {
        assert(spec_decode_reference_items(data@, cur as int, 0) == Some(
            (Seq::<ReferenceModel>::empty(), cur as int),
        ));
        assert(references_model(refs@) + Seq::<ReferenceModel>::empty() =~= references_model(
            refs@,
        ));
    }
    if cur != data.len() {
        return None;
    }
    Some(refs)
}

} // verus!
