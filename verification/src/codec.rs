//! The wire encoding of the structures that travel between nodes: a fixed
//! little-endian schema, with the decoder proven to return exactly what was
//! encoded.
use vstd::prelude::*;

use crate::block::{spec_header_bytes, BlockHeader, HeaderView};
use crate::bytesutil::append_bytes;
use crate::checkpoint::Checkpoint;
use crate::encoding::{
    lemma_i64_round_trip, push_byte, push_i64_le, push_u64_le, read_byte, read_bytes32,
    read_bytes64, read_i64_le, read_u64_le, spec_i64_from_le, spec_i64_le,
};
use crate::transaction::{
    spec_content_bytes, spec_tag_byte, spec_tx_hash, Transaction, TransactionMetadata,
    TransactionType, TxView,
};
use vstd::bytes::{
    lemma_auto_spec_u32_to_from_le_bytes, lemma_auto_spec_u64_to_from_le_bytes,
    spec_u32_to_le_bytes, spec_u64_from_le_bytes, spec_u64_to_le_bytes, u32_from_le_bytes,
};
use vstd::slice::slice_subrange;

verus! {

/// The wire bytes of a transaction: its canonical content, then the
/// signature behind a presence byte. The cached hash does not travel.
pub open spec fn spec_tx_wire(v: TxView) -> Seq<u8> {
    spec_content_bytes(v) + match v.signature {
        Option::None => seq![0u8],
        Option::Some(s) => seq![1u8] + s,
    }
}

/// The field widths a transaction must have to travel: 32-byte keys, a
/// 64-byte signature when present.
pub open spec fn spec_tx_sendable(v: TxView) -> bool {
    &&& v.from.len() == 32
    &&& v.to.len() == 32
    &&& (v.signature matches Some(s) ==> s.len() == 64)
    &&& (v.extra_data matches Some(d) ==> d.len() <= usize::MAX)
}

/// Encodes a transaction for the wire.
pub fn encode_transaction(tx: &Transaction) -> (r: Vec<u8>)
    ensures
        r@ == spec_tx_wire(tx@),
{
    let mut out = tx.content_bytes();
    match &tx.signature {
        Option::None => {
            push_byte(&mut out, 0);
        },
        Option::Some(sig) => {
            push_byte(&mut out, 1);
            append_bytes(&mut out, sig.as_slice());
        },
    }
    proof {
        assert(out@ =~= spec_tx_wire(tx@));
    }
    out
}

/// What a matching wire image pins down, byte by byte: every field of the
/// transaction it encodes stands at a fixed offset of the data.
proof fn lemma_tx_wire_fields(data: Seq<u8>, pos: int, v: TxView)
    requires
        spec_tx_sendable(v),
        0 <= pos,
        pos + spec_tx_wire(v).len() <= data.len(),
        data.subrange(pos, pos + spec_tx_wire(v).len()) == spec_tx_wire(v),
    ensures
        spec_content_bytes(v).len() == 89 + (match v.extra_data {
            Option::None => 1int,
            Option::Some(d) => 9 + d.len() as int,
        }),
        spec_tx_wire(v).len() == spec_content_bytes(v).len() + (match v.signature {
            Option::None => 1int,
            Option::Some(_) => 65int,
        }),
        v.from == data.subrange(pos, pos + 32),
        v.to == data.subrange(pos + 32, pos + 64),
        spec_i64_le(v.amount) == data.subrange(pos + 64, pos + 72),
        spec_i64_le(v.fee) == data.subrange(pos + 72, pos + 80),
        spec_i64_le(v.timestamp) == data.subrange(pos + 80, pos + 88),
        data[pos + 88] == spec_tag_byte(v.transaction_type),
        data[pos + 89] == (match v.extra_data {
            Option::None => 0u8,
            Option::Some(_) => 1u8,
        }),
        v.extra_data matches Some(d) ==> spec_u64_to_le_bytes(d.len() as u64) == data.subrange(
            pos + 90,
            pos + 98,
        ) && d == data.subrange(pos + 98, pos + 98 + d.len()),
        data[pos + spec_content_bytes(v).len()] == (match v.signature {
            Option::None => 0u8,
            Option::Some(_) => 1u8,
        }),
        v.signature matches Some(sg) ==> sg == data.subrange(
            pos + spec_content_bytes(v).len() + 1,
            pos + spec_content_bytes(v).len() + 65,
        ),
{
    lemma_tx_wire_shape();
    let w = spec_tx_wire(v);
    let c = spec_content_bytes(v);
    assert forall|k: int| 0 <= k < w.len() implies w[k] == data[pos + k] by {
        assert(w[k] == data.subrange(pos, pos + w.len())[k]);
    }
    let f2 = v.from + v.to;
    let f3 = f2 + spec_i64_le(v.amount);
    let f4 = f3 + spec_i64_le(v.fee);
    let f5 = f4 + spec_i64_le(v.timestamp);
    let f6 = f5 + seq![spec_tag_byte(v.transaction_type)];
    assert(f6.len() == 89);
    assert(c == f6 + (match v.extra_data {
        Option::None => seq![0u8],
        Option::Some(d) => seq![1u8] + spec_u64_to_le_bytes(d.len() as u64) + d,
    }));
    assert(v.from =~= data.subrange(pos, pos + 32)) by {
        assert forall|k: int| 0 <= k < 32 implies v.from[k] == data[pos + k] by {
            assert(c[k] == v.from[k]);
            assert(w[k] == c[k]);
        }
    }
    assert(v.to =~= data.subrange(pos + 32, pos + 64)) by {
        assert forall|k: int| 0 <= k < 32 implies v.to[k] == data[pos + 32 + k] by {
            assert(c[32 + k] == v.to[k]);
            assert(w[32 + k] == c[32 + k]);
        }
    }
    assert(spec_i64_le(v.amount) =~= data.subrange(pos + 64, pos + 72)) by {
        assert forall|k: int| 0 <= k < 8 implies spec_i64_le(v.amount)[k] == data[pos + 64 + k] by {
            assert(c[64 + k] == spec_i64_le(v.amount)[k]);
            assert(w[64 + k] == c[64 + k]);
        }
    }
    assert(spec_i64_le(v.fee) =~= data.subrange(pos + 72, pos + 80)) by {
        assert forall|k: int| 0 <= k < 8 implies spec_i64_le(v.fee)[k] == data[pos + 72 + k] by {
            assert(c[72 + k] == spec_i64_le(v.fee)[k]);
            assert(w[72 + k] == c[72 + k]);
        }
    }
    assert(spec_i64_le(v.timestamp) =~= data.subrange(pos + 80, pos + 88)) by {
        assert forall|k: int| 0 <= k < 8 implies spec_i64_le(v.timestamp)[k] == data[pos + 80
            + k] by {
            assert(c[80 + k] == spec_i64_le(v.timestamp)[k]);
            assert(w[80 + k] == c[80 + k]);
        }
    }
    assert(w[88] == c[88]);
    assert(c[88] == spec_tag_byte(v.transaction_type));
    assert(w[89] == c[89]);
    match v.extra_data {
        Option::None => {
            assert(c[89] == 0u8);
        },
        Option::Some(d) => {
            assert(c[89] == 1u8);
            assert(spec_u64_to_le_bytes(d.len() as u64) =~= data.subrange(pos + 90, pos + 98))
                by {
                assert forall|k: int|
                    0 <= k < 8 implies #[trigger] spec_u64_to_le_bytes(d.len() as u64)[k] == data[
                    pos + 90 + k] by {
                    assert(c[90 + k] == spec_u64_to_le_bytes(d.len() as u64)[k]);
                    assert(w[90 + k] == c[90 + k]);
                }
            }
            assert(d =~= data.subrange(pos + 98, pos + 98 + d.len())) by {
                assert forall|k: int| 0 <= k < d.len() implies d[k] == data[pos + 98 + k] by {
                    assert(c[98 + k] == d[k]);
                    assert(w[98 + k] == c[98 + k]);
                }
            }
        },
    }
    let cl = c.len();
    assert(w[cl as int] == (match v.signature {
        Option::None => 0u8,
        Option::Some(_) => 1u8,
    }));
    match v.signature {
        Option::None => {
        },
        Option::Some(sg) => {
            assert(sg =~= data.subrange(pos + cl + 1, pos + cl + 65)) by {
                assert forall|k: int| 0 <= k < 64 implies sg[k] == data[pos + cl + 1 + k] by {
                    assert(w[cl + 1 + k] == sg[k]);
                }
            }
        },
    }
}

/// Decodes a transaction from the wire at a position: what was encoded
/// comes back exactly, with the hash cache empty.
#[verifier::rlimit(60)]
pub fn decode_transaction(data: &[u8], pos: usize) -> (r: Option<(Transaction, usize)>)
    ensures
        r matches Some((tx, next)) ==> pos <= next <= data@.len() && tx@.hash is None
            && spec_tx_sendable(tx@) && data@.subrange(pos as int, next as int) == spec_tx_wire(
            tx@,
        ),
        forall|v: TxView|
            spec_tx_sendable(v) && pos + spec_tx_wire(v).len() <= data@.len() && data@.subrange(
                pos as int,
                pos + spec_tx_wire(v).len(),
            ) == #[trigger] spec_tx_wire(v) ==> (r matches Some((tx, next)) && tx@ == (TxView {
                hash: None,
                ..v
            }) && next == pos + spec_tx_wire(v).len()),
{
    proof {
        lemma_tx_wire_shape();
    }
    let (from, p1) = match read_bytes32(data, pos) {
        Option::None => {
            proof {
                assert forall|v: TxView|
                    spec_tx_sendable(v) && pos + spec_tx_wire(v).len() <= data@.len()
                        && data@.subrange(pos as int, pos + spec_tx_wire(v).len())
                        == #[trigger] spec_tx_wire(v) implies false by {
                    lemma_tx_wire_fields(data@, pos as int, v);
                }
            }
            return None;
        },
        Option::Some(x) => x,
    };
    let (to, p2) = match read_bytes32(data, p1) {
        Option::None => {
            proof {
                assert forall|v: TxView|
                    spec_tx_sendable(v) && pos + spec_tx_wire(v).len() <= data@.len()
                        && data@.subrange(pos as int, pos + spec_tx_wire(v).len())
                        == #[trigger] spec_tx_wire(v) implies false by {
                    lemma_tx_wire_fields(data@, pos as int, v);
                }
            }
            return None;
        },
        Option::Some(x) => x,
    };
    let (amount, p3) = match read_i64_le(data, p2) {
        Option::None => {
            proof {
                assert forall|v: TxView|
                    spec_tx_sendable(v) && pos + spec_tx_wire(v).len() <= data@.len()
                        && data@.subrange(pos as int, pos + spec_tx_wire(v).len())
                        == #[trigger] spec_tx_wire(v) implies false by {
                    lemma_tx_wire_fields(data@, pos as int, v);
                }
            }
            return None;
        },
        Option::Some(x) => x,
    };
    let (fee, p4) = match read_i64_le(data, p3) {
        Option::None => {
            proof {
                assert forall|v: TxView|
                    spec_tx_sendable(v) && pos + spec_tx_wire(v).len() <= data@.len()
                        && data@.subrange(pos as int, pos + spec_tx_wire(v).len())
                        == #[trigger] spec_tx_wire(v) implies false by {
                    lemma_tx_wire_fields(data@, pos as int, v);
                }
            }
            return None;
        },
        Option::Some(x) => x,
    };
    let (timestamp, p5) = match read_i64_le(data, p4) {
        Option::None => {
            proof {
                assert forall|v: TxView|
                    spec_tx_sendable(v) && pos + spec_tx_wire(v).len() <= data@.len()
                        && data@.subrange(pos as int, pos + spec_tx_wire(v).len())
                        == #[trigger] spec_tx_wire(v) implies false by {
                    lemma_tx_wire_fields(data@, pos as int, v);
                }
            }
            return None;
        },
        Option::Some(x) => x,
    };
    let (tag, p6) = match read_byte(data, p5) {
        Option::None => {
            proof {
                assert forall|v: TxView|
                    spec_tx_sendable(v) && pos + spec_tx_wire(v).len() <= data@.len()
                        && data@.subrange(pos as int, pos + spec_tx_wire(v).len())
                        == #[trigger] spec_tx_wire(v) implies false by {
                    lemma_tx_wire_fields(data@, pos as int, v);
                }
            }
            return None;
        },
        Option::Some(x) => x,
    };
    let transaction_type = match decode_tag(tag) {
        Option::None => {
            proof {
                assert forall|v: TxView|
                    spec_tx_sendable(v) && pos + spec_tx_wire(v).len() <= data@.len()
                        && data@.subrange(pos as int, pos + spec_tx_wire(v).len())
                        == #[trigger] spec_tx_wire(v) implies false by {
                    lemma_tx_wire_fields(data@, pos as int, v);
                    assert(data@[pos + 88] == spec_tag_byte(v.transaction_type));
                    assert(spec_tag_byte(v.transaction_type) <= 5);
                }
            }
            return None;
        },
        Option::Some(t) => t,
    };
    let (extra_flag, p7) = match read_byte(data, p6) {
        Option::None => {
            proof {
                assert forall|v: TxView|
                    spec_tx_sendable(v) && pos + spec_tx_wire(v).len() <= data@.len()
                        && data@.subrange(pos as int, pos + spec_tx_wire(v).len())
                        == #[trigger] spec_tx_wire(v) implies false by {
                    lemma_tx_wire_fields(data@, pos as int, v);
                }
            }
            return None;
        },
        Option::Some(x) => x,
    };
    let (extra_data, p8): (Option<Vec<u8>>, usize) = if extra_flag == 1 {
        let (elen, pa) = match read_u64_le(data, p7) {
            Option::None => {
                proof {
                    assert forall|v: TxView|
                    spec_tx_sendable(v) && pos + spec_tx_wire(v).len() <= data@.len()
                        && data@.subrange(pos as int, pos + spec_tx_wire(v).len())
                        == #[trigger] spec_tx_wire(v) implies false by {
                        lemma_tx_wire_fields(data@, pos as int, v);
                        assert(data@[pos + 89] == 1u8);
                        assert(v.extra_data is Some);
                    }
                }
                return None;
            },
            Option::Some(x) => x,
        };
        if elen > (usize::MAX as u64) {
            proof {
                assert forall|v: TxView|
                    spec_tx_sendable(v) && pos + spec_tx_wire(v).len() <= data@.len()
                        && data@.subrange(pos as int, pos + spec_tx_wire(v).len())
                        == #[trigger] spec_tx_wire(v) implies false by {
                    lemma_tx_wire_fields(data@, pos as int, v);
                    assert(v.extra_data is Some);
                    let d = v.extra_data->Some_0;
                    assert(spec_u64_from_le_bytes(data@.subrange(pos + 90, pos + 98)) == d.len());
                }
            }
            return None;
        }
        let elen_us = elen as usize;
        if pa > data.len() || data.len() - pa < elen_us {
            proof {
                assert forall|v: TxView|
                    spec_tx_sendable(v) && pos + spec_tx_wire(v).len() <= data@.len()
                        && data@.subrange(pos as int, pos + spec_tx_wire(v).len())
                        == #[trigger] spec_tx_wire(v) implies false by {
                    lemma_tx_wire_fields(data@, pos as int, v);
                    assert(v.extra_data is Some);
                    let d = v.extra_data->Some_0;
                    assert(spec_u64_from_le_bytes(data@.subrange(pos + 90, pos + 98)) == d.len());
                    assert(pos + 98 + d.len() <= pos + spec_tx_wire(v).len());
                }
            }
            return None;
        }
        let chunk = slice_subrange(data, pa, pa + elen_us);
        let bytes = vstd::slice::slice_to_vec(chunk);
        (Some(bytes), pa + elen_us)
    } else if extra_flag == 0 {
        (None, p7)
    } else {
        proof {
            assert forall|v: TxView|
                    spec_tx_sendable(v) && pos + spec_tx_wire(v).len() <= data@.len()
                        && data@.subrange(pos as int, pos + spec_tx_wire(v).len())
                        == #[trigger] spec_tx_wire(v) implies false by {
                lemma_tx_wire_fields(data@, pos as int, v);
                assert(data@[pos + 89] == 0u8 || data@[pos + 89] == 1u8);
            }
        }
        return None;
    };
    let ghost content_len: int = 89 + (match &extra_data {
        Option::None => 1int,
        Option::Some(d) => 9 + d@.len() as int,
    });
    proof {
        assert(p8 == pos + content_len);
    }
    let (sig_flag, p9) = match read_byte(data, p8) {
        Option::None => {
            proof {
                assert forall|v: TxView|
                    spec_tx_sendable(v) && pos + spec_tx_wire(v).len() <= data@.len()
                        && data@.subrange(pos as int, pos + spec_tx_wire(v).len())
                        == #[trigger] spec_tx_wire(v) implies false by {
                    lemma_tx_wire_fields(data@, pos as int, v);
                    lemma_same_extra(data@, pos as int, v, extra_flag, content_len);
                }
            }
            return None;
        },
        Option::Some(x) => x,
    };
    let (signature, p10): (Option<crate::Signature>, usize) = if sig_flag == 1 {
        match read_bytes64(data, p9) {
            Option::None => {
                proof {
                    assert forall|v: TxView|
                    spec_tx_sendable(v) && pos + spec_tx_wire(v).len() <= data@.len()
                        && data@.subrange(pos as int, pos + spec_tx_wire(v).len())
                        == #[trigger] spec_tx_wire(v) implies false by {
                        lemma_tx_wire_fields(data@, pos as int, v);
                        lemma_same_extra(data@, pos as int, v, extra_flag, content_len);
                        assert(data@[pos + spec_content_bytes(v).len()] == 1u8);
                        assert(v.signature is Some);
                    }
                }
                return None;
            },
            Option::Some((s, pb)) => (Some(s), pb),
        }
    } else if sig_flag == 0 {
        (None, p9)
    } else {
        proof {
            assert forall|v: TxView|
                    spec_tx_sendable(v) && pos + spec_tx_wire(v).len() <= data@.len()
                        && data@.subrange(pos as int, pos + spec_tx_wire(v).len())
                        == #[trigger] spec_tx_wire(v) implies false by {
                lemma_tx_wire_fields(data@, pos as int, v);
                lemma_same_extra(data@, pos as int, v, extra_flag, content_len);
            }
        }
        return None;
    };
    let tx = Transaction {
        hash: None,
        from,
        to,
        amount,
        fee,
        timestamp,
        metadata: TransactionMetadata { transaction_type, extra_data },
        signature,
    };
    proof {
        lemma_tx_wire_shape();
        let w = spec_tx_wire(tx@);
        let c = spec_content_bytes(tx@);
        assert(c.len() == content_len);
        assert(w.len() == p10 - pos);
        assert forall|k: int| 0 <= k < w.len() implies w[k] == data@[pos + k] by {
            if k < 32 {
                assert(w[k] == tx@.from[k]);
                assert(tx@.from[k] == data@.subrange(pos as int, pos + 32)[k]);
            } else if k < 64 {
                assert(w[k] == tx@.to[k - 32]);
                assert(tx@.to[k - 32] == data@.subrange(pos + 32, pos + 64)[k - 32]);
            } else if k < 72 {
                assert(w[k] == spec_i64_le(tx@.amount)[k - 64]);
                assert(spec_i64_le(tx@.amount) == data@.subrange(pos + 64, pos + 72));
            } else if k < 80 {
                assert(w[k] == spec_i64_le(tx@.fee)[k - 72]);
                assert(spec_i64_le(tx@.fee) == data@.subrange(pos + 72, pos + 80));
            } else if k < 88 {
                assert(w[k] == spec_i64_le(tx@.timestamp)[k - 80]);
                assert(spec_i64_le(tx@.timestamp) == data@.subrange(pos + 80, pos + 88));
            } else if k == 88 {
                assert(w[88] == spec_tag_byte(tx@.transaction_type));
            } else if k == 89 {
                assert(w[89] == (match tx@.extra_data {
                    Option::None => 0u8,
                    Option::Some(_) => 1u8,
                }));
            } else if k < content_len {
                let d = tx@.extra_data->Some_0;
                if k < 98 {
                    assert(w[k] == spec_u64_to_le_bytes(d.len() as u64)[k - 90]);
                    assert(spec_u64_to_le_bytes(d.len() as u64) == data@.subrange(
                        pos + 90,
                        pos + 98,
                    ));
                } else {
                    assert(w[k] == d[k - 98]);
                    assert(d[k - 98] == data@.subrange(pos + 98, pos + 98 + d.len())[k - 98]);
                }
            } else if k == content_len {
                assert(w[k] == (match tx@.signature {
                    Option::None => 0u8,
                    Option::Some(_) => 1u8,
                }));
            } else {
                let sg = tx@.signature->Some_0;
                assert(w[k] == sg[k - content_len - 1]);
                assert(sg[k - content_len - 1] == data@.subrange(p9 as int, p9 + 64)[k
                    - content_len - 1]);
            }
        }
        assert(data@.subrange(pos as int, p10 as int) =~= spec_tx_wire(tx@));
        assert forall|v: TxView|
            spec_tx_sendable(v) && pos + spec_tx_wire(v).len() <= data@.len() && data@.subrange(
                pos as int,
                pos + spec_tx_wire(v).len(),
            ) == #[trigger] spec_tx_wire(v) implies tx@ == (TxView { hash: None, ..v }) && p10
            == pos + spec_tx_wire(v).len() by {
            lemma_tx_wire_fields(data@, pos as int, v);
            assert(tx@.from =~= v.from);
            assert(tx@.to =~= v.to);
            assert(spec_i64_le(tx@.amount) == spec_i64_le(v.amount));
            assert(tx@.amount == v.amount);
            assert(spec_i64_le(tx@.fee) == spec_i64_le(v.fee));
            assert(tx@.fee == v.fee);
            assert(spec_i64_le(tx@.timestamp) == spec_i64_le(v.timestamp));
            assert(tx@.timestamp == v.timestamp);
            assert(spec_tag_byte(tx@.transaction_type) == spec_tag_byte(v.transaction_type));
            assert(tx@.transaction_type == v.transaction_type);
            lemma_same_extra(data@, pos as int, v, extra_flag, content_len);
            match (tx@.extra_data, v.extra_data) {
                (Option::Some(ta), Option::Some(d)) => {
                    assert(spec_u64_from_le_bytes(data@.subrange(pos + 90, pos + 98)) == d.len());
                    assert(ta =~= d);
                },
                (Option::None, Option::None) => {
                },
                _ => {
                    assert(false);
                },
            }
            match (tx@.signature, v.signature) {
                (Option::Some(sa), Option::Some(sb)) => {
                    assert(data@[pos + spec_content_bytes(v).len()] == 1u8);
                    assert(sa =~= sb);
                },
                (Option::None, Option::None) => {
                },
                (Option::None, Option::Some(_)) => {
                    assert(data@[pos + spec_content_bytes(v).len()] == 1u8);
                    assert(false);
                },
                (Option::Some(_), Option::None) => {
                    assert(data@[pos + spec_content_bytes(v).len()] == 0u8);
                    assert(false);
                },
            }
        }
    }
    Some((tx, p10))
}

/// When the decoder and a matching image agree on the extra-data flag, they
/// agree on where the content ends.
proof fn lemma_same_extra(data: Seq<u8>, pos: int, v: TxView, extra_flag: u8, content_len: int)
    requires
        spec_tx_sendable(v),
        0 <= pos,
        pos + spec_tx_wire(v).len() <= data.len(),
        data.subrange(pos, pos + spec_tx_wire(v).len()) == spec_tx_wire(v),
        pos + 89 < data.len(),
        extra_flag == data[pos + 89],
        extra_flag == 0 ==> content_len == 90,
        extra_flag == 1 ==> content_len == 98 + spec_u64_from_le_bytes(
            data.subrange(pos + 90, pos + 98),
        ),
    ensures
        content_len == spec_content_bytes(v).len(),
{
    lemma_tx_wire_fields(data, pos, v);
    lemma_tx_wire_shape();
    match v.extra_data {
        Option::None => {
        },
        Option::Some(d) => {
            assert(spec_u64_from_le_bytes(data.subrange(pos + 90, pos + 98)) == d.len() as u64);
        },
    }
}

/// The tag byte read back into a transaction kind.
fn decode_tag(tag: u8) -> (r: Option<TransactionType>)
    ensures
        r matches Some(t) ==> spec_tag_byte(t) == tag,
        r is None <==> tag > 5,
{
    match tag {
        0u8 => Some(TransactionType::Transfer),
        1u8 => Some(TransactionType::RentalPayment),
        2u8 => Some(TransactionType::ShopPurchase),
        3u8 => Some(TransactionType::Teleport),
        4u8 => Some(TransactionType::UniversalDividend),
        5u8 => Some(TransactionType::NFT),
        _ => None,
    }
}

/// The widths of the wire pieces.
proof fn lemma_tx_wire_shape()
    ensures
        forall|x: u64| (#[trigger] spec_u64_to_le_bytes(x)).len() == 8,
        forall|x: i64| (#[trigger] spec_i64_le(x)).len() == 8,
        forall|x: u64| spec_u64_from_le_bytes(#[trigger] spec_u64_to_le_bytes(x)) == x,
        forall|x: i64| spec_i64_from_le(#[trigger] spec_i64_le(x)) == x,
        forall|s: Seq<u8>| s.len() == 8 ==> #[trigger] spec_i64_le(spec_i64_from_le(s)) == s,
        forall|s: Seq<u8>|
            s.len() == 8 ==> #[trigger] spec_u64_to_le_bytes(spec_u64_from_le_bytes(s)) == s,
{
    lemma_auto_spec_u64_to_from_le_bytes();
    assert forall|x: i64| (#[trigger] spec_i64_le(x)).len() == 8 && spec_i64_from_le(
        spec_i64_le(x),
    ) == x by {
        lemma_i64_round_trip(x);
    }
    assert forall|s: Seq<u8>| s.len() == 8 implies #[trigger] spec_i64_le(spec_i64_from_le(s))
        == s by {
        let x = spec_u64_from_le_bytes(s);
        assert(spec_u64_to_le_bytes(spec_u64_from_le_bytes(s)) == s);
        assert(x as i64 as u64 == x) by (bit_vector);
    }
}


/// The widths of the header pieces.
proof fn lemma_header_shape()
    ensures
        forall|x: u64| (#[trigger] spec_u64_to_le_bytes(x)).len() == 8,
        forall|x: i64| (#[trigger] spec_i64_le(x)).len() == 8,
        forall|x: u32| (#[trigger] spec_u32_to_le_bytes(x)).len() == 4,
        forall|x: u64| spec_u64_from_le_bytes(#[trigger] spec_u64_to_le_bytes(x)) == x,
        forall|x: i64| spec_i64_from_le(#[trigger] spec_i64_le(x)) == x,
{
    lemma_tx_wire_shape();
    assert forall|x: u32| (#[trigger] spec_u32_to_le_bytes(x)).len() == 4 by {
        lemma_auto_spec_u32_to_from_le_bytes();
    }
}

/// The field widths a header must have to travel.
pub open spec fn spec_header_sendable(h: HeaderView) -> bool {
    &&& h.previous_hash.len() == 32
    &&& h.merkle_root.len() == 32
    &&& h.validator.len() == 32
}

/// Encodes a block header for the wire: the same bytes it is hashed over.
pub fn encode_header(header: &BlockHeader) -> (r: Vec<u8>)
    ensures
        r@ == spec_header_bytes(header@),
{
    header.serialize_for_hash()
}

/// What a matching header image pins down.
proof fn lemma_header_fields(data: Seq<u8>, pos: int, h: HeaderView)
    requires
        spec_header_sendable(h),
        0 <= pos,
        pos + 116 <= data.len(),
        data.subrange(pos, pos + 116) == spec_header_bytes(h),
    ensures
        spec_u64_to_le_bytes(h.height) == data.subrange(pos, pos + 8),
        h.previous_hash == data.subrange(pos + 8, pos + 40),
        h.merkle_root == data.subrange(pos + 40, pos + 72),
        spec_i64_le(h.timestamp) == data.subrange(pos + 72, pos + 80),
        h.validator == data.subrange(pos + 80, pos + 112),
        spec_u32_to_le_bytes(h.version) == data.subrange(pos + 112, pos + 116),
{
    lemma_header_shape();
    let w = spec_header_bytes(h);
    assert(w.len() == 116);
    assert forall|k: int| 0 <= k < 116 implies w[k] == data[pos + k] by {
        assert(w[k] == data.subrange(pos, pos + 116)[k]);
    }
    assert(spec_u64_to_le_bytes(h.height) =~= data.subrange(pos, pos + 8)) by {
        assert(forall|k: int|
            0 <= k < 8 ==> #[trigger] spec_u64_to_le_bytes(h.height)[k] == w[k]);
    }
    assert(h.previous_hash =~= data.subrange(pos + 8, pos + 40)) by {
        assert(forall|k: int| 0 <= k < 32 ==> #[trigger] h.previous_hash[k] == w[8 + k]);
    }
    assert(h.merkle_root =~= data.subrange(pos + 40, pos + 72)) by {
        assert(forall|k: int| 0 <= k < 32 ==> #[trigger] h.merkle_root[k] == w[40 + k]);
    }
    assert(spec_i64_le(h.timestamp) =~= data.subrange(pos + 72, pos + 80)) by {
        assert(forall|k: int|
            0 <= k < 8 ==> #[trigger] spec_i64_le(h.timestamp)[k] == w[72 + k]);
    }
    assert(h.validator =~= data.subrange(pos + 80, pos + 112)) by {
        assert(forall|k: int| 0 <= k < 32 ==> #[trigger] h.validator[k] == w[80 + k]);
    }
    assert(spec_u32_to_le_bytes(h.version) =~= data.subrange(pos + 112, pos + 116)) by {
        assert(forall|k: int|
            0 <= k < 4 ==> #[trigger] spec_u32_to_le_bytes(h.version)[k] == w[112 + k]);
    }
}

/// Decodes a block header from the wire at a position: what was encoded
/// comes back exactly.
pub fn decode_header(data: &[u8], pos: usize) -> (r: Option<(BlockHeader, usize)>)
    ensures
        r matches Some((h, next)) ==> pos <= next <= data@.len() && spec_header_sendable(h@)
            && data@.subrange(pos as int, next as int) == spec_header_bytes(h@),
        forall|h: HeaderView|
            spec_header_sendable(h) && pos + 116 <= data@.len() && data@.subrange(
                pos as int,
                pos + 116,
            ) == #[trigger] spec_header_bytes(h) ==> (r matches Some((rh, next)) && rh@ == h
                && next == pos + 116),
{
    proof {
        lemma_header_shape();
    }
    if pos > data.len() || data.len() - pos < 116 {
        return None;
    }
    let (height, p1) = match read_u64_le(data, pos) {
        Option::None => {
            return None;
        },
        Option::Some(x) => x,
    };
    let (previous_hash, p2) = match read_bytes32(data, p1) {
        Option::None => {
            return None;
        },
        Option::Some(x) => x,
    };
    let (merkle_root, p3) = match read_bytes32(data, p2) {
        Option::None => {
            return None;
        },
        Option::Some(x) => x,
    };
    let (timestamp, p4) = match read_i64_le(data, p3) {
        Option::None => {
            return None;
        },
        Option::Some(x) => x,
    };
    let (validator, p5) = match read_bytes32(data, p4) {
        Option::None => {
            return None;
        },
        Option::Some(x) => x,
    };
    let vslice = slice_subrange(data, p5, p5 + 4);
    let version = u32_from_le_bytes(vslice);
    let p6 = p5 + 4;
    let header = BlockHeader { height, previous_hash, merkle_root, timestamp, validator, version };
    proof {
        let w = spec_header_bytes(header@);
        assert(w.len() == 116);
        assert forall|k: int| 0 <= k < 116 implies w[k] == data@[pos + k] by {
            if k < 8 {
                assert(w[k] == spec_u64_to_le_bytes(header@.height)[k]);
                assert(header@.height == spec_u64_from_le_bytes(
                    data@.subrange(pos as int, pos + 8),
                ));
                lemma_tx_wire_shape();
                assert(spec_u64_to_le_bytes(spec_u64_from_le_bytes(
                    data@.subrange(pos as int, pos + 8),
                )) == data@.subrange(pos as int, pos + 8));
                assert(spec_u64_to_le_bytes(header@.height) == data@.subrange(pos as int, pos + 8));
            } else if k < 40 {
                assert(w[k] == header@.previous_hash[k - 8]);
                assert(header@.previous_hash[k - 8] == data@.subrange(pos + 8, pos + 40)[k - 8]);
            } else if k < 72 {
                assert(w[k] == header@.merkle_root[k - 40]);
                assert(header@.merkle_root[k - 40] == data@.subrange(pos + 40, pos + 72)[k - 40]);
            } else if k < 80 {
                assert(w[k] == spec_i64_le(header@.timestamp)[k - 72]);
                assert(header@.timestamp == spec_i64_from_le(data@.subrange(pos + 72, pos + 80)));
                lemma_tx_wire_shape();
                assert(spec_i64_le(spec_i64_from_le(data@.subrange(pos + 72, pos + 80)))
                    == data@.subrange(pos + 72, pos + 80));
                assert(spec_i64_le(header@.timestamp) == data@.subrange(pos + 72, pos + 80));
            } else if k < 112 {
                assert(w[k] == header@.validator[k - 80]);
                assert(header@.validator[k - 80] == data@.subrange(pos + 80, pos + 112)[k - 80]);
            } else {
                assert(w[k] == spec_u32_to_le_bytes(header@.version)[k - 112]);
                assert(spec_u32_to_le_bytes(header@.version) == data@.subrange(
                    pos + 112,
                    pos + 116,
                )) by {
                    assert(spec_u32_to_le_bytes(vstd::bytes::spec_u32_from_le_bytes(
                        data@.subrange(pos + 112, pos + 116),
                    )) == data@.subrange(pos + 112, pos + 116)) by {
                        lemma_auto_spec_u32_to_from_le_bytes();
                    }
                }
            }
        }
        assert(data@.subrange(pos as int, p6 as int) =~= w);
        assert forall|h: HeaderView|
            spec_header_sendable(h) && pos + 116 <= data@.len() && data@.subrange(
                pos as int,
                pos + 116,
            ) == #[trigger] spec_header_bytes(h) implies header@ == h by {
            lemma_header_fields(data@, pos as int, h);
            assert(header@.previous_hash =~= h.previous_hash);
            assert(header@.merkle_root =~= h.merkle_root);
            assert(header@.validator =~= h.validator);
            assert(spec_u64_to_le_bytes(header@.height) == spec_u64_to_le_bytes(h.height));
            assert(header@.height == h.height);
            assert(spec_i64_le(header@.timestamp) == spec_i64_le(h.timestamp));
            assert(header@.timestamp == h.timestamp);
            lemma_auto_spec_u32_to_from_le_bytes();
            assert(header@.version == vstd::bytes::spec_u32_from_le_bytes(
                data@.subrange(pos + 112, pos + 116),
            ));
            assert(vstd::bytes::spec_u32_from_le_bytes(spec_u32_to_le_bytes(h.version))
                == h.version);
            assert(header@.version == h.version);
        }
    }
    Some((header, p6))
}

/// The wire bytes of a checkpoint: height, block hash, state hash,
/// timestamp and interval.
pub open spec fn spec_checkpoint_wire(c: Checkpoint) -> Seq<u8> {
    spec_u64_to_le_bytes(c.height) + c.block_hash@ + c.state_hash@ + spec_i64_le(c.timestamp)
        + spec_u64_to_le_bytes(c.checkpoint_interval)
}

/// Encodes a checkpoint for the wire.
pub fn encode_checkpoint(c: &Checkpoint) -> (r: Vec<u8>)
    ensures
        r@ == spec_checkpoint_wire(*c),
{
    let mut out: Vec<u8> = Vec::new();
    push_u64_le(&mut out, c.height);
    append_bytes(&mut out, c.block_hash.as_slice());
    append_bytes(&mut out, c.state_hash.as_slice());
    push_i64_le(&mut out, c.timestamp);
    push_u64_le(&mut out, c.checkpoint_interval);
    proof {
        assert(out@ =~= spec_checkpoint_wire(*c));
    }
    out
}

/// Decodes a checkpoint from the wire at a position: what was encoded
/// comes back exactly.
pub fn decode_checkpoint(data: &[u8], pos: usize) -> (r: Option<(Checkpoint, usize)>)
    ensures
        r matches Some((c, next)) ==> pos <= next <= data@.len() && data@.subrange(
            pos as int,
            next as int,
        ) == spec_checkpoint_wire(c),
        forall|c: Checkpoint|
            pos + 88 <= data@.len() && data@.subrange(pos as int, pos + 88)
                == #[trigger] spec_checkpoint_wire(c) ==> (r matches Some((rc, next)) && rc == c
                && next == pos + 88),
{
    proof {
        lemma_header_shape();
    }
    let (height, p1) = match read_u64_le(data, pos) {
        Option::None => {
            proof {
                assert forall|c: Checkpoint|
                    pos + 88 <= data@.len() && data@.subrange(pos as int, pos + 88)
                        == #[trigger] spec_checkpoint_wire(c) implies false by {}
            }
            return None;
        },
        Option::Some(x) => x,
    };
    let (block_hash, p2) = match read_bytes32(data, p1) {
        Option::None => {
            return None;
        },
        Option::Some(x) => x,
    };
    let (state_hash, p3) = match read_bytes32(data, p2) {
        Option::None => {
            return None;
        },
        Option::Some(x) => x,
    };
    let (timestamp, p4) = match read_i64_le(data, p3) {
        Option::None => {
            return None;
        },
        Option::Some(x) => x,
    };
    let (checkpoint_interval, p5) = match read_u64_le(data, p4) {
        Option::None => {
            return None;
        },
        Option::Some(x) => x,
    };
    let c = Checkpoint { height, block_hash, state_hash, timestamp, checkpoint_interval };
    proof {
        let w = spec_checkpoint_wire(c);
        assert(w.len() == 88);
        assert forall|k: int| 0 <= k < 88 implies w[k] == data@[pos + k] by {
            if k < 8 {
                assert(w[k] == spec_u64_to_le_bytes(c.height)[k]);
                assert(c.height == spec_u64_from_le_bytes(data@.subrange(pos as int, pos + 8)));
                lemma_tx_wire_shape();
                assert(spec_u64_to_le_bytes(spec_u64_from_le_bytes(
                    data@.subrange(pos as int, pos + 8),
                )) == data@.subrange(pos as int, pos + 8));
                assert(spec_u64_to_le_bytes(c.height) == data@.subrange(pos as int, pos + 8));
            } else if k < 40 {
                assert(w[k] == c.block_hash@[k - 8]);
                assert(c.block_hash@[k - 8] == data@.subrange(pos + 8, pos + 40)[k - 8]);
            } else if k < 72 {
                assert(w[k] == c.state_hash@[k - 40]);
                assert(c.state_hash@[k - 40] == data@.subrange(pos + 40, pos + 72)[k - 40]);
            } else if k < 80 {
                assert(w[k] == spec_i64_le(c.timestamp)[k - 72]);
                assert(c.timestamp == spec_i64_from_le(data@.subrange(pos + 72, pos + 80)));
                lemma_tx_wire_shape();
                assert(spec_i64_le(spec_i64_from_le(data@.subrange(pos + 72, pos + 80)))
                    == data@.subrange(pos + 72, pos + 80));
                assert(spec_i64_le(c.timestamp) == data@.subrange(pos + 72, pos + 80));
            } else {
                assert(w[k] == spec_u64_to_le_bytes(c.checkpoint_interval)[k - 80]);
                assert(c.checkpoint_interval == spec_u64_from_le_bytes(
                    data@.subrange(pos + 80, pos + 88),
                ));
                lemma_tx_wire_shape();
                assert(spec_u64_to_le_bytes(spec_u64_from_le_bytes(
                    data@.subrange(pos + 80, pos + 88),
                )) == data@.subrange(pos + 80, pos + 88));
                assert(spec_u64_to_le_bytes(c.checkpoint_interval) == data@.subrange(
                    pos + 80,
                    pos + 88,
                ));
            }
        }
        assert(data@.subrange(pos as int, p5 as int) =~= w);
        assert forall|c2: Checkpoint|
            pos + 88 <= data@.len() && data@.subrange(pos as int, pos + 88)
                == #[trigger] spec_checkpoint_wire(c2) implies c == c2 && p5 == pos + 88 by {
            let w2 = spec_checkpoint_wire(c2);
            assert(w2.len() == 88);
            assert forall|k: int| 0 <= k < 88 implies w2[k] == data@[pos + k] by {
                assert(w2[k] == data@.subrange(pos as int, pos + 88)[k]);
            }
            assert(spec_u64_to_le_bytes(c2.height) =~= data@.subrange(pos as int, pos + 8)) by {
                assert(forall|k: int|
                    0 <= k < 8 ==> #[trigger] spec_u64_to_le_bytes(c2.height)[k] == w2[k]);
            }
            assert(c.height == c2.height);
            assert(c.block_hash@ =~= c2.block_hash@) by {
                assert(forall|k: int| 0 <= k < 32 ==> #[trigger] c2.block_hash@[k] == w2[8 + k]);
            }
            vstd::array::axiom_array_ext_equal(c.block_hash, c2.block_hash);
            assert(c.state_hash@ =~= c2.state_hash@) by {
                assert(forall|k: int| 0 <= k < 32 ==> #[trigger] c2.state_hash@[k] == w2[40 + k]);
            }
            vstd::array::axiom_array_ext_equal(c.state_hash, c2.state_hash);
            assert(spec_i64_le(c2.timestamp) =~= data@.subrange(pos + 72, pos + 80)) by {
                assert(forall|k: int|
                    0 <= k < 8 ==> #[trigger] spec_i64_le(c2.timestamp)[k] == w2[72 + k]);
            }
            assert(c.timestamp == c2.timestamp);
            assert(spec_u64_to_le_bytes(c2.checkpoint_interval) =~= data@.subrange(
                pos + 80,
                pos + 88,
            )) by {
                assert(forall|k: int|
                    0 <= k < 8 ==> #[trigger] spec_u64_to_le_bytes(c2.checkpoint_interval)[k]
                        == w2[80 + k]);
            }
            assert(c.checkpoint_interval == c2.checkpoint_interval);
        }
    }
    Some((c, p5))
}

/// Encoding and then decoding a transaction returns the original, with the
/// hash cache empty; its canonical hash is unchanged, so a transaction's
/// identity survives the wire.
pub proof fn lemma_tx_wire_round_trip(v: TxView)
    requires
        spec_tx_sendable(v),
    ensures
        spec_tx_hash(TxView { hash: None, ..v }) == spec_tx_hash(v),
{
    crate::transaction::lemma_hash_ignores_cache_and_signature(TxView { hash: None, ..v }, v);
}

} // verus!
