use crate::principal::{Principal, MAX_PRINCIPAL_LEN};
use crate::state::{reachable, views_of, HeapState, WalletError};
use vstd::bytes::{
    lemma_auto_spec_u64_to_from_le_bytes, spec_u64_from_le_bytes, spec_u64_to_le_bytes,
    u64_from_le_bytes, u64_to_le_bytes,
};
use vstd::prelude::*;
use vstd::slice::slice_subrange;

verus! {

/// Bytes of the header: the tag, then the buffer's total length.
pub const HEADER_LEN: usize = 13;

/// Bytes of the tag that opens every snapshot.
pub const TAG_LEN: usize = 5;

/// The tag that opens every snapshot: "WLTS" and format version 1.
pub open spec fn tag() -> Seq<u8> {
    seq![0x57u8, 0x4cu8, 0x54u8, 0x53u8, 0x01u8]
}

/// One owner in a snapshot: its length in one byte, then its bytes.
pub open spec fn record(p: Seq<u8>) -> Seq<u8> {
    seq![p.len() as u8] + p
}

/// The owners' records, one after another.
pub open spec fn records_of(owners: Seq<Seq<u8>>) -> Seq<u8>
    decreases owners.len(),
{
    if owners.len() == 0 {
        Seq::empty()
    } else {
        record(owners[0]) + records_of(owners.drop_first())
    }
}

/// The length of the snapshot of `owners`.
pub open spec fn encoded_len(owners: Seq<Seq<u8>>) -> nat {
    (HEADER_LEN + records_of(owners).len()) as nat
}

/// The snapshot of a state with `owners`.
pub open spec fn encoding(owners: Seq<Seq<u8>>) -> Seq<u8> {
    tag() + spec_u64_to_le_bytes(encoded_len(owners) as u64) + records_of(owners)
}

/// The owners that a run of records describes, or `None` when a record is
/// too long for an identity or runs past the end.
pub open spec fn parse_records(s: Seq<u8>) -> Option<Seq<Seq<u8>>>
    decreases s.len(),
{
    if s.len() == 0 {
        Some(Seq::empty())
    } else {
        let n = s[0] as int;
        if n > MAX_PRINCIPAL_LEN || 1 + n > s.len() {
            None
        } else {
            match parse_records(s.subrange(1 + n, s.len() as int)) {
                Some(rest) => Some(seq![s.subrange(1, 1 + n)] + rest),
                None => None,
            }
        }
    }
}

/// The owners that a snapshot holds: `None` unless it opens with the tag,
/// its length field equals its length, its records parse and name at least
/// one owner.
pub open spec fn decoding(b: Seq<u8>) -> Option<Seq<Seq<u8>>> {
    if b.len() < HEADER_LEN || b.subrange(0, TAG_LEN as int) != tag()
        || spec_u64_from_le_bytes(b.subrange(TAG_LEN as int, HEADER_LEN as int)) as int
        != b.len() {
        None
    } else {
        match parse_records(b.subrange(HEADER_LEN as int, b.len() as int)) {
            Some(owners) => if owners.len() == 0 {
                None
            } else {
                Some(owners)
            },
            None => None,
        }
    }
}

/// `Some(front + rest)` for `Some(rest)`, else `None`.
pub open spec fn prepend(front: Seq<Seq<u8>>, tail: Option<Seq<Seq<u8>>>) -> Option<Seq<Seq<u8>>> {
    match tail {
        Some(rest) => Some(front + rest),
        None => None,
    }
}

/// The records of two runs of owners are the records of each, joined.
pub proof fn lemma_records_append(a: Seq<Seq<u8>>, b: Seq<Seq<u8>>)
    ensures
        records_of(a + b) == records_of(a) + records_of(b),
    decreases a.len(),
{
    if a.len() == 0 {
        assert(a + b =~= b);
        assert(records_of(a) + records_of(b) =~= records_of(b));
    } else {
        assert((a + b).drop_first() =~= a.drop_first() + b);
        lemma_records_append(a.drop_first(), b);
        assert(records_of(a + b) =~= records_of(a) + records_of(b));
    }
}

/// The records of `owners` extended by one are those of `owners` and one more.
pub proof fn lemma_records_push(owners: Seq<Seq<u8>>, p: Seq<u8>)
    ensures
        records_of(owners.push(p)) == records_of(owners) + record(p),
{
    lemma_records_append(owners, seq![p]);
    assert(owners + seq![p] =~= owners.push(p));
    let one = seq![p];
    assert(one.drop_first() =~= Seq::<Seq<u8>>::empty());
    assert(records_of(one.drop_first()) =~= Seq::<u8>::empty());
    assert(one[0] == p);
    assert(records_of(one) =~= record(p));
}

/// Records of identities parse back to the identities.
pub proof fn lemma_parse_records_of(owners: Seq<Seq<u8>>)
    requires
        forall|i: int| 0 <= i < owners.len() ==> #[trigger] owners[i].len() <= MAX_PRINCIPAL_LEN,
    ensures
        parse_records(records_of(owners)) == Some(owners),
    decreases owners.len(),
{
    if owners.len() > 0 {
        let s = records_of(owners);
        let p = owners[0];
        let n = p.len() as int;
        assert(owners[0].len() <= MAX_PRINCIPAL_LEN);
        assert(s[0] == p.len() as u8);
        assert(s.subrange(1, 1 + n) =~= p);
        assert(s.subrange(1 + n, s.len() as int) =~= records_of(owners.drop_first()));
        lemma_parse_records_of(owners.drop_first());
        assert(seq![p] + owners.drop_first() =~= owners);
    } else {
        assert(records_of(owners) =~= Seq::<u8>::empty());
    }
}

/// Appends `s` to `v`.
fn push_all(v: &mut Vec<u8>, s: &[u8])
    ensures
        final(v)@ == old(v)@ + s@,
{
    let mut i: usize = 0;
    while i < s.len()
        invariant
            i <= s@.len(),
            v@ == old(v)@ + s@.subrange(0, i as int),
        decreases s@.len() - i,
    {
        v.push(s[i]);
        i = i + 1;
        proof {
            assert(v@ =~= old(v)@ + s@.subrange(0, i as int));
        }
    }
    assert(s@.subrange(0, i as int) =~= s@);
}

/// Writes `heap` as a snapshot. Fails with `SnapshotEncodeFailure` only when
/// the snapshot's length would not fit its 64-bit length field.
pub fn encode(heap: &HeapState) -> (r: Result<Vec<u8>, WalletError>)
    ensures
        r is Ok <==> encoded_len(heap@) <= u64::MAX,
        r matches Ok(b) ==> b@ == encoding(heap@),
        r matches Err(e) ==> e == WalletError::SnapshotEncodeFailure,
{
    let owners = heap.owners();
    let ghost o = heap@;
    let mut total: u64 = HEADER_LEN as u64;
    let mut i: usize = 0;
    while i < owners.len()
        invariant
            views_of(owners@) == o,
            o == heap@,
            i <= o.len(),
            total == HEADER_LEN + records_of(o.take(i as int)).len(),
        decreases o.len() - i,
    {
        let n = owners[i].len();
        proof {
            assert(o[i as int] == owners@[i as int]@);
            lemma_records_push(o.take(i as int), o[i as int]);
            assert(o.take(i as int).push(o[i as int]) =~= o.take(i as int + 1));
        }
        match total.checked_add(1 + n as u64) {
            Some(t) => {
                total = t;
            },
            None => {
                proof {
                    lemma_records_append(o.take(i as int + 1), o.skip(i as int + 1));
                    assert(o.take(i as int + 1) + o.skip(i as int + 1) =~= o);
                }
                return Err(WalletError::SnapshotEncodeFailure);
            },
        }
        i = i + 1;
    }
    assert(o.take(i as int) =~= o);
    let mut out: Vec<u8> = Vec::new();
    out.push(0x57u8);
    out.push(0x4cu8);
    out.push(0x54u8);
    out.push(0x53u8);
    out.push(0x01u8);
    let len_field = u64_to_le_bytes(total);
    push_all(&mut out, len_field.as_slice());
    let ghost header = out@;
    assert(header =~= tag() + spec_u64_to_le_bytes(encoded_len(o) as u64));
    let mut i: usize = 0;
    while i < owners.len()
        invariant
            views_of(owners@) == o,
            i <= o.len(),
            out@ == header + records_of(o.take(i as int)),
        decreases o.len() - i,
    {
        let p = &owners[i];
        let n = p.len();
        out.push(n as u8);
        push_all(&mut out, p.as_slice());
        proof {
            lemma_records_push(o.take(i as int), o[i as int]);
            assert(o.take(i as int).push(o[i as int]) =~= o.take(i as int + 1));
            assert(out@ =~= header + records_of(o.take(i as int + 1)));
        }
        i = i + 1;
    }
    assert(o.take(i as int) =~= o);
    Ok(out)
}

/// Reads a snapshot back into a state; `SnapshotDecodeFailure` exactly when
/// `decoding` finds it malformed.
pub fn decode(b: &[u8]) -> (r: Result<HeapState, WalletError>)
    ensures
        match decoding(b@) {
            Some(owners) => r matches Ok(h) && h@ == owners,
            None => r == Err::<HeapState, WalletError>(WalletError::SnapshotDecodeFailure),
        },
{
    if b.len() < HEADER_LEN {
        return Err(WalletError::SnapshotDecodeFailure);
    }
    if b[0] != 0x57u8 || b[1] != 0x4cu8 || b[2] != 0x54u8 || b[3] != 0x53u8 || b[4] != 0x01u8 {
        proof {
            assert(b@.subrange(0, TAG_LEN as int) != tag()) by {
                let t = b@.subrange(0, TAG_LEN as int);
                assert(t[0] == b@[0] && t[1] == b@[1] && t[2] == b@[2] && t[3] == b@[3] && t[4]
                    == b@[4]);
            }
        }
        return Err(WalletError::SnapshotDecodeFailure);
    }
    assert(b@.subrange(0, TAG_LEN as int) =~= tag());
    let total = u64_from_le_bytes(slice_subrange(b, TAG_LEN, HEADER_LEN));
    if b.len() as u64 != total {
        return Err(WalletError::SnapshotDecodeFailure);
    }
    let ghost body = b@.subrange(HEADER_LEN as int, b@.len() as int);
    let mut owners: Vec<Principal> = Vec::new();
    let mut pos: usize = HEADER_LEN;
    assert(body =~= b@.subrange(pos as int, b@.len() as int));
    assert(views_of(owners@) + Seq::<Seq<u8>>::empty() =~= views_of(owners@));
    while pos < b.len()
        invariant
            HEADER_LEN <= pos <= b@.len(),
            body == b@.subrange(HEADER_LEN as int, b@.len() as int),
            parse_records(body) == prepend(
                views_of(owners@),
                parse_records(b@.subrange(pos as int, b@.len() as int)),
            ),
        decreases b@.len() - pos,
    {
        let ghost rest = b@.subrange(pos as int, b@.len() as int);
        let n = b[pos] as usize;
        assert(rest[0] == b@[pos as int]);
        if n > MAX_PRINCIPAL_LEN || n > b.len() - pos - 1 {
            return Err(WalletError::SnapshotDecodeFailure);
        }
        let piece = slice_subrange(b, pos + 1, pos + 1 + n);
        let p = match Principal::from_slice(piece) {
            Some(p) => p,
            None => {
                return Err(WalletError::SnapshotDecodeFailure);
            },
        };
        proof {
            assert(rest.subrange(1, 1 + n as int) =~= piece@);
            assert(rest.subrange(1 + n as int, rest.len() as int) =~= b@.subrange(
                (pos + 1 + n) as int,
                b@.len() as int,
            ));
        }
        let ghost before = views_of(owners@);
        owners.push(p);
        proof {
            assert(views_of(owners@) =~= before.push(piece@));
            match parse_records(b@.subrange((pos + 1 + n) as int, b@.len() as int)) {
                Some(tail) => {
                    assert(before + (seq![piece@] + tail) =~= before.push(piece@) + tail);
                },
                None => {},
            }
        }
        pos = pos + 1 + n;
    }
    assert(b@.subrange(pos as int, b@.len() as int) =~= Seq::<u8>::empty());
    assert(views_of(owners@) + Seq::<Seq<u8>>::empty() =~= views_of(owners@));
    match HeapState::new(owners) {
        Ok(h) => Ok(h),
        Err(_) => Err(WalletError::SnapshotDecodeFailure),
    }
}

/// Round trip: every reachable state whose snapshot fits its length field
/// reads back from that snapshot as itself.
pub proof fn lemma_round_trip(owners: Seq<Seq<u8>>)
    requires
        reachable(owners),
        encoded_len(owners) <= u64::MAX,
    ensures
        decoding(encoding(owners)) == Some(owners),
{
    lemma_auto_spec_u64_to_from_le_bytes();
    let b = encoding(owners);
    let x = encoded_len(owners) as u64;
    assert(spec_u64_to_le_bytes(x).len() == 8);
    assert(b.subrange(0, TAG_LEN as int) =~= tag());
    assert(b.subrange(TAG_LEN as int, HEADER_LEN as int) =~= spec_u64_to_le_bytes(x));
    assert(b.subrange(HEADER_LEN as int, b.len() as int) =~= records_of(owners));
    lemma_parse_records_of(owners);
}

/// Records parse only into identities whose records they are.
pub proof fn lemma_parsed_records(s: Seq<u8>)
    requires
        parse_records(s) is Some,
    ensures
        parse_records(s) matches Some(owners) && records_of(owners) == s && forall|i: int|
            0 <= i < owners.len() ==> #[trigger] owners[i].len() <= MAX_PRINCIPAL_LEN,
    decreases s.len(),
{
    if s.len() > 0 {
        let n = s[0] as int;
        let tail = s.subrange(1 + n, s.len() as int);
        lemma_parsed_records(tail);
        let rest = parse_records(tail)->Some_0;
        let p = s.subrange(1, 1 + n);
        let owners = seq![p] + rest;
        assert(owners.drop_first() =~= rest);
        assert(owners[0] == p);
        assert(records_of(owners) =~= s);
        assert forall|i: int| 0 <= i < owners.len() implies #[trigger] owners[i].len()
            <= MAX_PRINCIPAL_LEN by {
            if i > 0 {
                assert(owners[i] == rest[i - 1]);
            }
        }
    } else {
        assert(records_of(Seq::<Seq<u8>>::empty()) =~= s);
    }
}

/// The format is canonical: a snapshot that reads as some owners is, byte
/// for byte, the snapshot that those owners write, and they are reachable.
pub proof fn lemma_decoding_canonical(b: Seq<u8>)
    requires
        decoding(b) is Some,
    ensures
        decoding(b) matches Some(owners) && reachable(owners) && encoded_len(owners) == b.len()
            && encoding(owners) == b,
{
    lemma_auto_spec_u64_to_from_le_bytes();
    let body = b.subrange(HEADER_LEN as int, b.len() as int);
    lemma_parsed_records(body);
    let owners = decoding(b)->Some_0;
    let field = b.subrange(TAG_LEN as int, HEADER_LEN as int);
    assert(spec_u64_to_le_bytes(spec_u64_from_le_bytes(field)) == field);
    assert(encoding(owners) =~= b.subrange(0, TAG_LEN as int) + field + body);
    assert(b.subrange(0, TAG_LEN as int) + field + body =~= b);
}

/// A snapshot cut short, anywhere, is rejected.
pub proof fn lemma_truncated_rejected(owners: Seq<Seq<u8>>, n: int)
    requires
        reachable(owners),
        encoded_len(owners) <= u64::MAX,
        0 <= n < encoding(owners).len(),
    ensures
        decoding(encoding(owners).subrange(0, n)) is None,
{
    lemma_auto_spec_u64_to_from_le_bytes();
    let b = encoding(owners);
    let x = encoded_len(owners) as u64;
    assert(spec_u64_to_le_bytes(x).len() == 8);
    if n >= HEADER_LEN {
        let c = b.subrange(0, n);
        assert(c.subrange(TAG_LEN as int, HEADER_LEN as int) =~= spec_u64_to_le_bytes(x));
    }
}

/// A buffer that does not open with the tag is rejected.
pub proof fn lemma_foreign_rejected(b: Seq<u8>)
    requires
        b.len() < TAG_LEN || b.subrange(0, TAG_LEN as int) != tag(),
    ensures
        decoding(b) is None,
{
}

} // verus!
