//! Fixed-width serialization of [`AccountState`] into an account's data
//! buffer.
//!
//! Layout: one flag byte (0 or 1), a little-endian `u32` record count, then
//! for each record its key and value as length-prefixed UTF-8 text, then zero
//! padding up to exactly [`ACCOUNT_STATE_SPACE`] bytes.

use vstd::prelude::*;

use vstd::bytes::{
    lemma_auto_spec_u32_to_from_le_bytes, spec_u32_from_le_bytes, spec_u32_to_le_bytes,
    u32_from_le_bytes, u32_to_le_bytes,
};
use vstd::slice::{slice_subrange, slice_to_vec};
use vstd::utf8::{decode_utf8, encode_utf8, valid_utf8};

use crate::error::WalletError;
use crate::state::{AccountState, Record, RecordView, StateView};

verus! {

broadcast use vstd::utf8::encode_utf8_valid_utf8, vstd::utf8::encode_utf8_decode_utf8;

/// Width in bytes of every account's serialized state buffer.
pub const ACCOUNT_STATE_SPACE: usize = 1024;

/// A string as it appears on the wire: its UTF-8 bytes behind a
/// little-endian `u32` length prefix.
pub open spec fn spec_enc_str(s: Seq<char>) -> Seq<u8> {
    spec_u32_to_le_bytes(encode_utf8(s).len() as u32) + encode_utf8(s)
}

/// The records one after another, each as encoded key then encoded value.
pub open spec fn spec_enc_records(rs: Seq<RecordView>) -> Seq<u8>
    decreases rs.len(),
{
    if rs.len() == 0 {
        Seq::empty()
    } else {
        spec_enc_str(rs[0].key) + spec_enc_str(rs[0].value) + spec_enc_records(rs.drop_first())
    }
}

pub open spec fn spec_flag_byte(initialized: bool) -> u8 {
    if initialized {
        1u8
    } else {
        0u8
    }
}

/// The meaningful prefix of an encoded state, before zero padding.
pub open spec fn spec_payload(st: StateView) -> Seq<u8> {
    seq![spec_flag_byte(st.initialized)] + spec_u32_to_le_bytes(st.records.len() as u32)
        + spec_enc_records(st.records)
}

/// Whether the state fits the fixed-width buffer.
pub open spec fn spec_fits(st: StateView) -> bool {
    spec_payload(st).len() <= ACCOUNT_STATE_SPACE
}

/// What `encode` produces: the payload padded with zeros to exactly
/// [`ACCOUNT_STATE_SPACE`] bytes, or nothing when the state does not fit.
pub open spec fn spec_encode(st: StateView) -> Option<Seq<u8>> {
    if spec_fits(st) {
        Some(
            spec_payload(st) + Seq::new(
                (ACCOUNT_STATE_SPACE - spec_payload(st).len()) as nat,
                |i: int| 0u8,
            ),
        )
    } else {
        None
    }
}

/// Parse one length-prefixed string at `pos`; yields the characters and the
/// position just past them.
pub open spec fn spec_dec_str(b: Seq<u8>, pos: int) -> Option<(Seq<char>, int)> {
    if 0 <= pos && pos + 4 <= b.len() {
        let l = spec_u32_from_le_bytes(b.subrange(pos, pos + 4)) as int;
        if pos + 4 + l <= b.len() && valid_utf8(b.subrange(pos + 4, pos + 4 + l)) {
            Some((decode_utf8(b.subrange(pos + 4, pos + 4 + l)), pos + 4 + l))
        } else {
            None
        }
    } else {
        None
    }
}

/// Parse `n` records starting at `pos`.
pub open spec fn spec_dec_records(b: Seq<u8>, pos: int, n: nat) -> Option<(Seq<RecordView>, int)>
    decreases n,
{
    if n == 0 {
        Some((Seq::empty(), pos))
    } else {
        match spec_dec_str(b, pos) {
            Some((k, p1)) => match spec_dec_str(b, p1) {
                Some((v, p2)) => match spec_dec_records(b, p2, (n - 1) as nat) {
                    Some((rest, p3)) => Some(
                        (seq![RecordView { key: k, value: v }] + rest, p3),
                    ),
                    None => None,
                },
                None => None,
            },
            None => None,
        }
    }
}

/// What the permissive decode accepts: a buffer of the exact width whose
/// flag byte is 0 or 1 and whose declared records parse with pairwise
/// distinct keys. Trailing padding is not examined.
pub open spec fn spec_decode_unchecked(b: Seq<u8>) -> Option<StateView> {
    if b.len() == ACCOUNT_STATE_SPACE && (b[0] == 0 || b[0] == 1) {
        match spec_dec_records(b, 5, spec_u32_from_le_bytes(b.subrange(1, 5)) as nat) {
            Some((rs, _pos)) => {
                let st = StateView { initialized: b[0] == 1, records: rs };
                if st.wf() {
                    Some(st)
                } else {
                    None
                }
            },
            None => None,
        }
    } else {
        None
    }
}

/// What the strict decode accepts: a permissively decodable buffer whose
/// lifecycle flag is set.
pub open spec fn spec_decode(b: Seq<u8>) -> Option<StateView> {
    match spec_decode_unchecked(b) {
        Some(st) => if st.initialized {
            Some(st)
        } else {
            None
        },
        None => None,
    }
}

/// Relies on `String::from_utf8`: succeeds exactly on valid UTF-8 input,
/// returning the string whose UTF-8 encoding is that input.
#[verifier::external_body]
fn string_from_utf8(bytes: Vec<u8>) -> (r: Option<String>)
    ensures
        match r {
            Some(s) => encode_utf8(s@) == bytes@,
            None => !valid_utf8(bytes@),
        },
        valid_utf8(bytes@) ==> r is Some,
{
    String::from_utf8(bytes).ok()
}

/// Append every byte of `bytes` to `out`.
fn append_bytes(out: &mut Vec<u8>, bytes: &[u8])
    requires
        old(out)@.len() + bytes@.len() <= usize::MAX,
    ensures
        final(out)@ == old(out)@ + bytes@,
{
    let n = bytes.len();
    let mut j: usize = 0;
    while j < n
        invariant
            j <= n,
            n == bytes@.len(),
            out@ == old(out)@ + bytes@.take(j as int),
        decreases n - j,
    {
        out.push(bytes[j]);
        proof {
            assert(out@ =~= old(out)@ + bytes@.take(j + 1));
        }
        j += 1;
    }
    proof {
        assert(bytes@.take(n as int) =~= bytes@);
    }
}

/// Serialize `state` into `buf`. On success `buf` holds exactly the
/// fixed-width encoding; when the state does not fit, the buffer is left
/// untouched and a capacity error is returned.
pub fn encode(state: &AccountState, buf: &mut Vec<u8>) -> (r: Result<(), WalletError>)
    ensures
        match r {
            Ok(()) => spec_encode(state@) == Some(final(buf)@),
            Err(e) => {
                &&& e == WalletError::SerializationError
                &&& spec_encode(state@) is None
                &&& final(buf)@ == old(buf)@
            },
        },
{
    let n = state.records.len();
    if n > ACCOUNT_STATE_SPACE {
        proof {
            lemma_enc_records_bounds(state@.records);
            lemma_auto_spec_u32_to_from_le_bytes();
        }
        return Err(WalletError::SerializationError);
    }
    let mut out: Vec<u8> = Vec::new();
    out.push(if state.initialized {
        1u8
    } else {
        0u8
    });
    let mut count_bytes = u32_to_le_bytes(n as u32);
    out.append(&mut count_bytes);
    proof {
        assert(state@.records.skip(0) =~= state@.records);
        assert(spec_payload(state@) =~= out@ + spec_enc_records(state@.records.skip(0)));
    }
    let mut i: usize = 0;
    while i < n
        invariant
            i <= n,
            n == state.records.len(),
            out@.len() <= ACCOUNT_STATE_SPACE,
            spec_payload(state@) == out@ + spec_enc_records(state@.records.skip(i as int)),
        decreases n - i,
    {
        let ghost out0 = out@;
        let ghost rec = state@.records[i as int];
        let key_bytes: &[u8] = state.records[i].key.as_str().as_bytes();
        let val_bytes: &[u8] = state.records[i].value.as_str().as_bytes();
        let klen = key_bytes.len();
        let vlen = val_bytes.len();
        proof {
            assert(rec == state.records@[i as int]@);
            assert(key_bytes@ == encode_utf8(rec.key));
            assert(val_bytes@ == encode_utf8(rec.value));
            lemma_enc_records_skip_step(state@.records, i as int);
            lemma_auto_spec_u32_to_from_le_bytes();
        }
        if klen > ACCOUNT_STATE_SPACE || vlen > ACCOUNT_STATE_SPACE || out.len() + 8 + klen + vlen
            > ACCOUNT_STATE_SPACE {
            proof {
                assert(spec_payload(state@).len() >= out@.len() + 8 + klen + vlen);
            }
            return Err(WalletError::SerializationError);
        }
        let mut kl = u32_to_le_bytes(klen as u32);
        out.append(&mut kl);
        append_bytes(&mut out, key_bytes);
        let mut vl = u32_to_le_bytes(vlen as u32);
        out.append(&mut vl);
        append_bytes(&mut out, val_bytes);
        proof {
            assert(out@ =~= out0 + spec_enc_str(rec.key) + spec_enc_str(rec.value));
            assert(spec_payload(state@) =~= out@ + spec_enc_records(
                state@.records.skip(i as int + 1),
            ));
        }
        i += 1;
    }
    proof {
        assert(state@.records.skip(n as int) =~= Seq::<RecordView>::empty());
        assert(spec_enc_records(Seq::<RecordView>::empty()) =~= Seq::<u8>::empty());
        assert(spec_payload(state@) =~= out@);
    }
    while out.len() < ACCOUNT_STATE_SPACE
        invariant
            spec_payload(state@).len() <= out@.len() <= ACCOUNT_STATE_SPACE,
            out@.subrange(0, spec_payload(state@).len() as int) == spec_payload(state@),
            forall|j: int| spec_payload(state@).len() <= j < out@.len() ==> out@[j] == 0u8,
        decreases ACCOUNT_STATE_SPACE - out@.len(),
    {
        out.push(0u8);
        proof {
            assert(out@.subrange(0, spec_payload(state@).len() as int) =~= spec_payload(state@));
        }
    }
    proof {
        assert(out@ =~= spec_payload(state@) + Seq::new(
            (ACCOUNT_STATE_SPACE - spec_payload(state@).len()) as nat,
            |j: int| 0u8,
        ));
    }
    *buf = out;
    Ok(())
}

/// Read one length-prefixed string at `pos`.
pub(crate) fn read_string(buf: &[u8], pos: usize) -> (r: Option<(String, usize)>)
    requires
        pos <= buf@.len(),
    ensures
        match r {
            Some(p) => {
                &&& spec_dec_str(buf@, pos as int) == Some((p.0@, p.1 as int))
                &&& pos < p.1 <= buf@.len()
            },
            None => spec_dec_str(buf@, pos as int) is None,
        },
{
    if buf.len() - pos < 4 {
        return None;
    }
    let len_bytes = slice_subrange(buf, pos, pos + 4);
    let l = u32_from_le_bytes(len_bytes) as usize;
    if l > buf.len() - (pos + 4) {
        return None;
    }
    let text_bytes = slice_to_vec(slice_subrange(buf, pos + 4, pos + 4 + l));
    match string_from_utf8(text_bytes) {
        Some(s) => {
            proof {
                assert(decode_utf8(buf@.subrange(pos + 4, pos + 4 + l)) == s@);
            }
            Some((s, pos + 4 + l))
        },
        None => None,
    }
}

/// Parse an account buffer without demanding that the lifecycle flag is
/// set; an all-zero buffer decodes to an empty, uninitialized state.
pub fn decode_unchecked(buf: &[u8]) -> (r: Result<AccountState, WalletError>)
    ensures
        match r {
            Ok(st) => {
                &&& spec_decode_unchecked(buf@) == Some(st@)
                &&& st@.wf()
            },
            Err(e) => {
                &&& e == WalletError::DeserializationError
                &&& spec_decode_unchecked(buf@) is None
            },
        },
{
    if buf.len() != ACCOUNT_STATE_SPACE {
        return Err(WalletError::DeserializationError);
    }
    let flag = buf[0];
    if flag > 1 {
        return Err(WalletError::DeserializationError);
    }
    let n = u32_from_le_bytes(slice_subrange(buf, 1, 5)) as usize;
    let ghost total: nat = n as nat;
    let mut records: Vec<Record> = Vec::new();
    let mut pos: usize = 5;
    let mut i: usize = 0;
    proof {
        match spec_dec_records(buf@, 5, total) {
            Some(t) => {
                assert(records@.map_values(|r: Record| r@) + t.0 =~= t.0);
            },
            None => {},
        }
    }
    while i < n
        invariant
            i <= n,
            pos <= buf@.len(),
            buf@.len() == ACCOUNT_STATE_SPACE,
            flag == buf@[0],
            flag <= 1,
            total == n as nat,
            total == spec_u32_from_le_bytes(buf@.subrange(1, 5)) as nat,
            spec_dec_records(buf@, 5, total) == (match spec_dec_records(
                buf@,
                pos as int,
                (n - i) as nat,
            ) {
                Some(t) => Some(
                    (records@.map_values(|r: Record| r@) + t.0, t.1),
                ),
                None => None::<(Seq<RecordView>, int)>,
            }),
        decreases n - i,
    {
        let ghost rs0 = records@.map_values(|r: Record| r@);
        let key = match read_string(buf, pos) {
            Some(p) => {
                pos = p.1;
                p.0
            },
            None => {
                return Err(WalletError::DeserializationError);
            },
        };
        let value = match read_string(buf, pos) {
            Some(p) => {
                pos = p.1;
                p.0
            },
            None => {
                return Err(WalletError::DeserializationError);
            },
        };
        let ghost kv = RecordView { key: key@, value: value@ };
        proof {
            match spec_dec_records(buf@, pos as int, (n - i - 1) as nat) {
                Some(t) => {
                    assert(rs0.push(kv) + t.0 =~= rs0 + (seq![kv] + t.0));
                },
                None => {},
            }
        }
        records.push(Record { key, value });
        proof {
            assert(records@.map_values(|r: Record| r@) =~= rs0.push(kv));
        }
        i += 1;
    }
    let ghost endpos = pos as int;
    proof {
        assert(records@.map_values(|r: Record| r@) + Seq::<RecordView>::empty()
            =~= records@.map_values(|r: Record| r@));
        assert(spec_dec_records(buf@, 5, total) == Some(
            (records@.map_values(|r: Record| r@), endpos),
        ));
    }
    let m = records.len();
    let mut a: usize = 0;
    while a < m
        invariant
            a <= m,
            m == records@.len(),
            buf@.len() == ACCOUNT_STATE_SPACE,
            flag == buf@[0],
            flag <= 1,
            total == spec_u32_from_le_bytes(buf@.subrange(1, 5)) as nat,
            spec_dec_records(buf@, 5, total) == Some(
                (records@.map_values(|r: Record| r@), endpos),
            ),
            forall|x: int, y: int|
                0 <= x < y < a ==> records@[x].key@ != records@[y].key@,
        decreases m - a,
    {
        let mut b: usize = 0;
        while b < a
            invariant
                b <= a < m,
                m == records@.len(),
                buf@.len() == ACCOUNT_STATE_SPACE,
                flag == buf@[0],
                flag <= 1,
                total == spec_u32_from_le_bytes(buf@.subrange(1, 5)) as nat,
                spec_dec_records(buf@, 5, total) == Some(
                    (records@.map_values(|r: Record| r@), endpos),
                ),
                forall|y: int| 0 <= y < b ==> records@[y].key@ != records@[a as int].key@,
            decreases a - b,
        {
            if records[b].key == records[a].key {
                proof {
                    let rs = records@.map_values(|r: Record| r@);
                    assert(rs[b as int].key == rs[a as int].key);
                    assert(!(StateView { initialized: flag == 1, records: rs }).wf()) by {
                        let stv = StateView { initialized: flag == 1, records: rs };
                        if stv.wf() {
                            assert(stv.records[b as int].key != stv.records[a as int].key);
                        }
                    }
                }
                return Err(WalletError::DeserializationError);
            }
            b += 1;
        }
        a += 1;
    }
    let st = AccountState { initialized: flag == 1, records };
    proof {
        let rs = st.records@.map_values(|r: Record| r@);
        assert forall|x: int, y: int| 0 <= x < y < rs.len() implies rs[x].key != rs[y].key by {
            assert(rs[x] == st.records@[x]@);
            assert(rs[y] == st.records@[y]@);
        }
        assert(st@.wf());
    }
    Ok(st)
}

/// Parse an account buffer, demanding that the lifecycle flag is set.
pub fn decode(buf: &[u8]) -> (r: Result<AccountState, WalletError>)
    ensures
        match r {
            Ok(st) => {
                &&& spec_decode(buf@) == Some(st@)
                &&& st@.wf()
                &&& st@.initialized
            },
            Err(e) => {
                &&& e == WalletError::DeserializationError
                &&& spec_decode(buf@) is None
            },
        },
{
    match decode_unchecked(buf) {
        Ok(st) => {
            if st.is_initialized() {
                Ok(st)
            } else {
                Err(WalletError::DeserializationError)
            }
        },
        Err(e) => Err(e),
    }
}

/// Unfolding of `spec_enc_records` on a non-empty suffix.
proof fn lemma_enc_records_skip_step(rs: Seq<RecordView>, i: int)
    requires
        0 <= i < rs.len(),
    ensures
        spec_enc_records(rs.skip(i)) == spec_enc_str(rs[i].key) + spec_enc_str(rs[i].value)
            + spec_enc_records(rs.skip(i + 1)),
{
    assert(rs.skip(i).len() > 0);
    assert(rs.skip(i)[0] == rs[i]);
    assert(rs.skip(i).drop_first() =~= rs.skip(i + 1));
}

/// Decoding reads back exactly the records that were encoded: if the bytes
/// at `pos` are the encoding of `rs`, parsing `rs.len()` records from `pos`
/// yields `rs` and stops right after them.
proof fn lemma_dec_enc_records(b: Seq<u8>, pos: int, rs: Seq<RecordView>)
    requires
        0 <= pos,
        pos + spec_enc_records(rs).len() <= b.len(),
        b.subrange(pos, pos + spec_enc_records(rs).len() as int) == spec_enc_records(rs),
        forall|i: int|
            0 <= i < rs.len() ==> encode_utf8(#[trigger] rs[i].key).len() <= u32::MAX
                && encode_utf8(rs[i].value).len() <= u32::MAX,
    ensures
        spec_dec_records(b, pos, rs.len() as nat) == Some(
            (rs, pos + spec_enc_records(rs).len()),
        ),
    decreases rs.len(),
{
    lemma_auto_spec_u32_to_from_le_bytes();
    if rs.len() == 0 {
        assert(rs =~= Seq::<RecordView>::empty());
    } else {
        let k = rs[0].key;
        let v = rs[0].value;
        let kb = encode_utf8(k);
        let vb = encode_utf8(v);
        let ek = spec_enc_str(k);
        let ev = spec_enc_str(v);
        let rest = spec_enc_records(rs.drop_first());
        let whole = spec_enc_records(rs);
        let e = whole.len() as int;
        assert(whole == ek + ev + rest);
        assert(ek.len() == 4 + kb.len());
        assert(ev.len() == 4 + vb.len());
        assert(kb.len() <= u32::MAX && vb.len() <= u32::MAX);
        // decompose the encoding into its five parts
        assert(whole.subrange(0, 4) =~= spec_u32_to_le_bytes(kb.len() as u32)) by {
            assert forall|idx: int|
                0 <= idx < 4 implies whole[idx] == spec_u32_to_le_bytes(kb.len() as u32)[idx] by {
                assert(whole[idx] == ek[idx]);
            }
        }
        assert(whole.subrange(4, 4 + kb.len() as int) =~= kb) by {
            assert forall|idx: int| 0 <= idx < kb.len() implies whole[4 + idx] == kb[idx] by {
                assert(whole[4 + idx] == ek[4 + idx]);
            }
        }
        assert forall|j: int| ek.len() <= j < e implies #[trigger] whole[j] == (ev + rest)[j
            - ek.len()] by {
            assert(whole[j] == (ek + ev)[j] || whole[j] == rest[j - ek.len() - ev.len()]);
        }
        assert(whole.subrange(ek.len() as int, ek.len() as int + 4) =~= spec_u32_to_le_bytes(
            vb.len() as u32,
        ));
        assert(whole.subrange(ek.len() as int + 4, ek.len() as int + 4 + vb.len() as int)
            =~= vb);
        assert(whole.subrange(ek.len() as int + ev.len() as int, e) =~= rest);
        // transfer them to the enclosing buffer
        lemma_subrange_of_subrange(b, pos, whole, 0, 4);
        lemma_subrange_of_subrange(b, pos, whole, 4, 4 + kb.len() as int);
        lemma_subrange_of_subrange(b, pos, whole, ek.len() as int, ek.len() as int + 4);
        lemma_subrange_of_subrange(b, pos, whole, ek.len() as int + 4, ek.len() as int + 4 + vb.len() as int);
        lemma_subrange_of_subrange(b, pos, whole, ek.len() as int + ev.len() as int, e);
        // the key parses back
        assert(spec_u32_from_le_bytes(b.subrange(pos, pos + 4)) as int == kb.len());
        assert(b.subrange(pos + 4, pos + 4 + kb.len() as int) == kb);
        assert(spec_dec_str(b, pos) == Some((k, pos + ek.len() as int)));
        // the value parses back
        let p1 = pos + ek.len() as int;
        assert(spec_u32_from_le_bytes(b.subrange(p1, p1 + 4)) as int == vb.len());
        assert(b.subrange(p1 + 4, p1 + 4 + vb.len() as int) == vb);
        assert(spec_dec_str(b, p1) == Some((v, p1 + ev.len() as int)));
        // the remaining records parse back, by induction
        let p2 = p1 + ev.len() as int;
        assert(b.subrange(p2, p2 + rest.len() as int) == rest);
        assert forall|i: int|
            0 <= i < rs.drop_first().len() implies encode_utf8(
            #[trigger] rs.drop_first()[i].key,
        ).len() <= u32::MAX && encode_utf8(rs.drop_first()[i].value).len() <= u32::MAX by {
            assert(rs.drop_first()[i] == rs[i + 1]);
        }
        lemma_dec_enc_records(b, p2, rs.drop_first());
        assert(seq![rs[0]] + rs.drop_first() =~= rs);
        assert(RecordView { key: k, value: v } == rs[0]);
    }
}

/// A subrange equality transfers to any sub-subrange.
proof fn lemma_subrange_of_subrange(b: Seq<u8>, pos: int, whole: Seq<u8>, lo: int, hi: int)
    requires
        0 <= pos,
        pos + whole.len() <= b.len(),
        b.subrange(pos, pos + whole.len() as int) == whole,
        0 <= lo <= hi <= whole.len(),
    ensures
        b.subrange(pos + lo, pos + hi) == whole.subrange(lo, hi),
{
    assert forall|idx: int|
        0 <= idx < hi - lo implies b.subrange(pos + lo, pos + hi)[idx] == whole.subrange(
        lo,
        hi,
    )[idx] by {
        assert(b.subrange(pos + lo, pos + hi)[idx] == b[pos + lo + idx]);
        assert(b.subrange(pos, pos + whole.len() as int)[lo + idx] == b[pos + lo + idx]);
        assert(whole.subrange(lo, hi)[idx] == whole[lo + idx]);
    }
    assert(b.subrange(pos + lo, pos + hi) =~= whole.subrange(lo, hi));
}

/// Round trip: a well-formed state that fits the buffer decodes back from
/// its own encoding, both permissively and, once initialized, strictly.
pub proof fn lemma_decode_encode(st: StateView)
    requires
        st.wf(),
        spec_encode(st) is Some,
    ensures
        spec_decode_unchecked(spec_encode(st)->Some_0) == Some(st),
        st.initialized ==> spec_decode(spec_encode(st)->Some_0) == Some(st),
{
    lemma_auto_spec_u32_to_from_le_bytes();
    lemma_enc_records_bounds(st.records);
    let b = spec_encode(st)->Some_0;
    let p = spec_payload(st);
    let er = spec_enc_records(st.records);
    assert(b.len() == ACCOUNT_STATE_SPACE);
    assert(p.len() <= ACCOUNT_STATE_SPACE);
    assert forall|idx: int| 0 <= idx < p.len() implies b[idx] == p[idx] by {}
    assert(b[0] == spec_flag_byte(st.initialized));
    assert(b.subrange(1, 5) =~= spec_u32_to_le_bytes(st.records.len() as u32));
    assert(8 * st.records.len() <= p.len());
    assert(st.records.len() < ACCOUNT_STATE_SPACE);
    assert(spec_u32_from_le_bytes(b.subrange(1, 5)) as nat == st.records.len());
    assert(b.subrange(5, 5 + er.len() as int) =~= er);
    assert forall|i: int|
        0 <= i < st.records.len() implies encode_utf8(#[trigger] st.records[i].key).len()
        <= u32::MAX && encode_utf8(st.records[i].value).len() <= u32::MAX by {}
    lemma_dec_enc_records(b, 5, st.records);
    assert(StateView { initialized: b[0] == 1, records: st.records } == st);
}

/// Every record contributes at least its two length prefixes and its bytes,
/// so the whole encoding bounds each record's sizes and the record count.
pub proof fn lemma_enc_records_bounds(rs: Seq<RecordView>)
    ensures
        spec_enc_records(rs).len() >= 8 * rs.len(),
        forall|i: int|
            0 <= i < rs.len() ==> spec_enc_records(rs).len() >= 8 + encode_utf8(#[trigger] rs[i].key).len()
                + encode_utf8(rs[i].value).len(),
    decreases rs.len(),
{
    lemma_auto_spec_u32_to_from_le_bytes();
    if rs.len() > 0 {
        lemma_enc_records_bounds(rs.drop_first());
        assert forall|i: int|
            0 <= i < rs.len() implies spec_enc_records(rs).len() >= 8 + encode_utf8(
            #[trigger] rs[i].key,
        ).len() + encode_utf8(rs[i].value).len() by {
            if i > 0 {
                assert(rs.drop_first()[i - 1] == rs[i]);
            }
        }
    }
}

} // verus!
