//! The byte layout of a catalog entry in the store: the number of ids as a
//! little-endian `u64`, each id as a little-endian `u64`, then the file name
//! in UTF-8.
use vstd::prelude::*;
use vstd::bytes::*;
use vstd::slice::*;
use vstd::utf8::*;

use crate::text::string_from_utf8;

verus! {

broadcast use vstd::seq::group_seq_axioms;

/// The bytes of a sequence of ids, eight per id.
pub open spec fn ids_bytes(ids: Seq<u64>) -> Seq<u8>
    decreases ids.len(),
{
    if ids.len() == 0 {
        Seq::empty()
    } else {
        ids_bytes(ids.drop_last()) + spec_u64_to_le_bytes(ids.last())
    }
}

/// The stored form of an entry `(file name, ids)`.
pub open spec fn entry_bytes(e: (Seq<char>, Seq<u64>)) -> Seq<u8> {
    spec_u64_to_le_bytes(e.1.len() as u64) + ids_bytes(e.1) + encode_utf8(e.0)
}

/// The id stored at position `i` of a record.
pub open spec fn id_at(b: Seq<u8>, i: int) -> u64 {
    spec_u64_from_le_bytes(b.subrange(8 + 8 * i, 16 + 8 * i))
}

/// What a stored record reads back as, if it is well formed.
pub open spec fn parse_entry(b: Seq<u8>) -> Option<(Seq<char>, Seq<u64>)> {
    if b.len() < 8 {
        None
    } else {
        let n = spec_u64_from_le_bytes(b.subrange(0, 8)) as int;
        if b.len() < 8 + 8 * n {
            None
        } else {
            let rest = b.subrange(8 + 8 * n, b.len() as int);
            if valid_utf8(rest) {
                Some((decode_utf8(rest), Seq::new(n as nat, |i: int| id_at(b, i))))
            } else {
                None
            }
        }
    }
}

proof fn lemma_ids_bytes(ids: Seq<u64>)
    ensures
        ids_bytes(ids).len() == 8 * ids.len(),
        forall|i: int|
            0 <= i < ids.len() ==> #[trigger] ids_bytes(ids).subrange(8 * i, 8 * i + 8)
                == spec_u64_to_le_bytes(ids[i]),
    decreases ids.len(),
{
    vstd::bytes::lemma_auto_spec_u64_to_from_le_bytes();
    if ids.len() > 0 {
        let init = ids.drop_last();
        lemma_ids_bytes(init);
        let b = ids_bytes(ids);
        assert forall|i: int| 0 <= i < ids.len() implies #[trigger] b.subrange(8 * i, 8 * i + 8)
            == spec_u64_to_le_bytes(ids[i]) by {
            if i < ids.len() - 1 {
                assert(init[i] == ids[i]);
                assert(b.subrange(8 * i, 8 * i + 8) =~= ids_bytes(init).subrange(8 * i, 8 * i + 8));
            } else {
                assert(b.subrange(8 * i, 8 * i + 8) =~= spec_u64_to_le_bytes(ids.last()));
            }
        }
    }
}

/// Reading back the stored form of an entry gives the entry.
pub proof fn lemma_entry_round_trip(e: (Seq<char>, Seq<u64>))
    requires
        e.1.len() <= u64::MAX,
    ensures
        parse_entry(entry_bytes(e)) == Some(e),
{
    vstd::bytes::lemma_auto_spec_u64_to_from_le_bytes();
    broadcast use vstd::utf8::encode_utf8_valid_utf8, vstd::utf8::encode_utf8_decode_utf8;

    let b = entry_bytes(e);
    let n = e.1.len() as int;
    let head = spec_u64_to_le_bytes(e.1.len() as u64);
    let body = ids_bytes(e.1);
    let name = encode_utf8(e.0);
    lemma_ids_bytes(e.1);
    assert(b.subrange(0, 8) =~= head);
    assert(spec_u64_from_le_bytes(b.subrange(0, 8)) as int == n);
    assert(b.subrange(8 + 8 * n, b.len() as int) =~= name);
    assert forall|i: int| 0 <= i < n implies #[trigger] id_at(b, i) == e.1[i] by {
        assert(b.subrange(8 + 8 * i, 16 + 8 * i) =~= body.subrange(8 * i, 8 * i + 8));
    }
    assert(Seq::new(n as nat, |i: int| id_at(b, i)) =~= e.1);
}

/// The stored form of an entry.
pub fn encode_entry(filename: &str, ids: &Vec<u64>) -> (r: Vec<u8>)
    ensures
        r@ == entry_bytes((filename@, ids@)),
{
    let mut out = u64_to_le_bytes(ids.len() as u64);
    let mut i: usize = 0;
    while i < ids.len()
        invariant
            0 <= i <= ids@.len(),
            out@ == spec_u64_to_le_bytes(ids@.len() as u64) + ids_bytes(ids@.subrange(0, i as int)),
        decreases ids@.len() - i,
    {
        let mut b = u64_to_le_bytes(ids[i]);
        proof {
            assert(ids@.subrange(0, i + 1).drop_last() =~= ids@.subrange(0, i as int));
        }
        out.append(&mut b);
        i += 1;
    }
    assert(ids@.subrange(0, ids@.len() as int) =~= ids@);
    let mut name = slice_to_vec(filename.as_bytes());
    out.append(&mut name);
    out
}

/// Reads a stored record back; `None` where it is not well formed.
pub fn decode_entry(b: &Vec<u8>) -> (r: Option<(String, Vec<u64>)>)
    ensures
        r is Some <==> parse_entry(b@) is Some,
        r matches Some(e) ==> parse_entry(b@) == Some((e.0@, e.1@)),
{
    if b.len() < 8 {
        return None;
    }
    let n = u64_from_le_bytes(slice_subrange(b.as_slice(), 0, 8));
    let room = (b.len() - 8) / 8;
    if (room as u64) < n {
        proof {
            assert(b@.len() < 8 + 8 * n) by (nonlinear_arith)
                requires
                    room == (b@.len() - 8) / 8,
                    room < n,
                    b@.len() >= 8,
            ;
        }
        return None;
    }
    let n = n as usize;
    proof {
        assert(8 + 8 * n <= b@.len()) by (nonlinear_arith)
            requires
                room == (b@.len() - 8) / 8,
                n <= room,
                b@.len() >= 8,
        ;
    }
    let blen = b.len();
    let mut ids: Vec<u64> = Vec::new();
    let mut i: usize = 0;
    while i < n
        invariant
            0 <= i <= n,
            blen == b@.len(),
            8 + 8 * n <= b@.len(),
            ids@.len() == i,
            forall|j: int| 0 <= j < i ==> ids@[j] == #[trigger] id_at(b@, j),
        decreases n - i,
    {
        proof {
            assert(16 + 8 * i <= 8 + 8 * n) by (nonlinear_arith)
                requires
                    i < n,
            ;
        }
        let id = u64_from_le_bytes(slice_subrange(b.as_slice(), 8 + 8 * i, 16 + 8 * i));
        ids.push(id);
        i += 1;
    }
    let rest = slice_to_vec(slice_subrange(b.as_slice(), 8 + 8 * n, b.len()));
    match string_from_utf8(rest) {
        Some(name) => {
            assert(ids@ =~= Seq::new(n as nat, |j: int| id_at(b@, j)));
            Some((name, ids))
        },
        None => None,
    }
}

} // verus!
