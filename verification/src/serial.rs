//! The vault serializer: the canonical byte representation of a vault.
//!
//! Every string is written as its UTF-8 bytes behind a little-endian
//! `u64` length, the entry count is a `u64`, and entries follow in
//! stored order.  Serializing and then deserializing is the identity on
//! well-formed vaults, and deserializing accepts exactly the canonical
//! images of well-formed vaults.

use vstd::bytes::{spec_u64_from_le_bytes, spec_u64_to_le_bytes};
use vstd::prelude::*;
use vstd::utf8::{decode_utf8, encode_utf8, valid_utf8};

use crate::mem::{Keeper, KeeperV, Privacy, PrivacyV, unique_keys};

verus! {

/// Whether a string's UTF-8 form fits behind a `u64` length.
pub open spec fn str_bounded(s: Seq<char>) -> bool {
    encode_utf8(s).len() <= u64::MAX
}

/// Whether every length written by [`vault_enc`] fits in a `u64`.
pub open spec fn keeper_bounded(k: KeeperV) -> bool {
    &&& str_bounded(k.username)
    &&& k.heap.len() <= u64::MAX
    &&& forall|i: int|
        0 <= i < k.heap.len() ==> {
            &&& str_bounded((#[trigger] k.heap[i]).0)
            &&& str_bounded(k.heap[i].1.url)
            &&& str_bounded(k.heap[i].1.username)
            &&& str_bounded(k.heap[i].1.password)
        }
}

/// One length-prefixed string: eight length bytes, then the UTF-8 bytes.
pub open spec fn str_enc(s: Seq<char>) -> Seq<u8> {
    spec_u64_to_le_bytes(encode_utf8(s).len() as u64) + encode_utf8(s)
}

/// One entry: the id, then the credential's three fields.
pub open spec fn entry_enc(e: (Seq<char>, PrivacyV)) -> Seq<u8> {
    str_enc(e.0) + str_enc(e.1.url) + str_enc(e.1.username) + str_enc(e.1.password)
}

/// All entries, in stored order.
pub open spec fn entries_enc(s: Seq<(Seq<char>, PrivacyV)>) -> Seq<u8>
    decreases s.len(),
{
    if s.len() == 0 {
        Seq::empty()
    } else {
        entry_enc(s[0]) + entries_enc(s.drop_first())
    }
}

/// The canonical byte representation of a vault.
pub open spec fn vault_enc(k: KeeperV) -> Seq<u8> {
    str_enc(k.username) + spec_u64_to_le_bytes(k.heap.len() as u64) + entries_enc(k.heap)
}

/// The encoding of concatenated entry lists is the concatenation of
/// their encodings.
pub proof fn lemma_entries_enc_concat(s: Seq<(Seq<char>, PrivacyV)>, t: Seq<(Seq<char>, PrivacyV)>)
    ensures
        entries_enc(s + t) == entries_enc(s) + entries_enc(t),
    decreases s.len(),
{
    if s.len() == 0 {
        assert(s + t =~= t);
        assert(entries_enc(s) + entries_enc(t) =~= entries_enc(t));
    } else {
        assert((s + t).drop_first() =~= s.drop_first() + t);
        lemma_entries_enc_concat(s.drop_first(), t);
        assert(entries_enc(s + t) =~= entries_enc(s) + entries_enc(t));
    }
}

/// Reads one length-prefixed string off the front of the bytes and
/// yields it with the remaining bytes, or nothing on malformed input.
pub open spec fn dec_str(b: Seq<u8>) -> Option<(Seq<char>, Seq<u8>)> {
    if b.len() < 8 {
        None
    } else {
        let n = spec_u64_from_le_bytes(b.take(8)) as int;
        if b.len() - 8 < n {
            None
        } else {
            let payload = b.subrange(8, 8 + n);
            if valid_utf8(payload) {
                Some((decode_utf8(payload), b.skip(8 + n)))
            } else {
                None
            }
        }
    }
}

/// Reads `count` entries off the front of the bytes.
pub open spec fn dec_entries(b: Seq<u8>, count: nat) -> Option<
    (Seq<(Seq<char>, PrivacyV)>, Seq<u8>),
>
    decreases count,
{
    if count == 0 {
        Some((Seq::empty(), b))
    } else {
        match dec_str(b) {
            None => None,
            Some((id, r1)) => match dec_str(r1) {
                None => None,
                Some((url, r2)) => match dec_str(r2) {
                    None => None,
                    Some((un, r3)) => match dec_str(r3) {
                        None => None,
                        Some((pw, r4)) => match dec_entries(r4, (count - 1) as nat) {
                            None => None,
                            Some((tail, r5)) => Some(
                                (
                                    seq![(id, PrivacyV { url, username: un, password: pw })] + tail,
                                    r5,
                                ),
                            ),
                        },
                    },
                },
            },
        }
    }
}

/// The vault encoded in the given bytes, if they are a canonical image
/// of a well-formed vault; nothing otherwise.
pub open spec fn vault_dec(b: Seq<u8>) -> Option<KeeperV> {
    match dec_str(b) {
        None => None,
        Some((username, r1)) => if r1.len() < 8 {
            None
        } else {
            let count = spec_u64_from_le_bytes(r1.take(8));
            match dec_entries(r1.skip(8), count as nat) {
                None => None,
                Some((entries, rest)) => if rest.len() == 0 && unique_keys(entries) {
                    Some(KeeperV { username, heap: entries })
                } else {
                    None
                },
            }
        },
    }
}

/// Reading a length-prefixed string back off an encoding recovers the
/// string and the trailing bytes.
pub proof fn lemma_dec_str_enc(s: Seq<char>, rest: Seq<u8>)
    requires
        str_bounded(s),
    ensures
        dec_str(str_enc(s) + rest) == Some((s, rest)),
{
    vstd::bytes::lemma_auto_spec_u64_to_from_le_bytes();
    let e = encode_utf8(s);
    let header = spec_u64_to_le_bytes(e.len() as u64);
    let b = str_enc(s) + rest;
    assert(header.len() == 8);
    assert(b.take(8) =~= header);
    let n = spec_u64_from_le_bytes(b.take(8)) as int;
    assert(n == e.len());
    assert(b.len() - 8 >= n);
    assert(b.subrange(8, 8 + n) =~= e);
    vstd::utf8::encode_utf8_valid_utf8(s);
    vstd::utf8::encode_utf8_decode_utf8(s);
    assert(b.skip(8 + n) =~= rest);
}

/// A successfully read string was stored in exactly its canonical form.
pub proof fn lemma_dec_str_canon(b: Seq<u8>)
    requires
        dec_str(b) is Some,
    ensures
        ({
            let (s, rest) = dec_str(b)->0;
            &&& b == str_enc(s) + rest
            &&& str_bounded(s)
            &&& rest.len() <= b.len() - 8
        }),
{
    vstd::bytes::lemma_auto_spec_u64_to_from_le_bytes();
    let (s, rest) = dec_str(b)->0;
    let n = spec_u64_from_le_bytes(b.take(8)) as int;
    let payload = b.subrange(8, 8 + n);
    vstd::utf8::decode_utf8_encode_utf8(payload);
    assert(encode_utf8(s) == payload);
    assert(b.take(8).len() == 8);
    assert(spec_u64_to_le_bytes(spec_u64_from_le_bytes(b.take(8))) == b.take(8));
    assert(b =~= str_enc(s) + rest);
}

/// Reading entries back off an encoding recovers them and the trailing
/// bytes.
pub proof fn lemma_dec_entries_enc(s: Seq<(Seq<char>, PrivacyV)>, rest: Seq<u8>)
    requires
        forall|i: int|
            0 <= i < s.len() ==> {
                &&& str_bounded((#[trigger] s[i]).0)
                &&& str_bounded(s[i].1.url)
                &&& str_bounded(s[i].1.username)
                &&& str_bounded(s[i].1.password)
            },
    ensures
        dec_entries(entries_enc(s) + rest, s.len()) == Some((s, rest)),
    decreases s.len(),
{
    if s.len() == 0 {
        assert(entries_enc(s) + rest =~= rest);
    } else {
        let e = s[0];
        let tail = s.drop_first();
        let b = entries_enc(s) + rest;
        let after = entries_enc(tail) + rest;
        assert(b =~= str_enc(e.0) + (str_enc(e.1.url) + (str_enc(e.1.username) + (str_enc(
            e.1.password,
        ) + after))));
        lemma_dec_str_enc(e.0, str_enc(e.1.url) + (str_enc(e.1.username) + (str_enc(e.1.password)
            + after)));
        lemma_dec_str_enc(e.1.url, str_enc(e.1.username) + (str_enc(e.1.password) + after));
        lemma_dec_str_enc(e.1.username, str_enc(e.1.password) + after);
        lemma_dec_str_enc(e.1.password, after);
        lemma_dec_entries_enc(tail, rest);
        assert(seq![(e.0, PrivacyV { url: e.1.url, username: e.1.username, password: e.1.password })]
            + tail =~= s);
    }
}

/// Concatenation of byte strings is associative.
proof fn seq_assoc(a: Seq<u8>, b: Seq<u8>, c: Seq<u8>)
    ensures
        (a + b) + c == a + (b + c),
{
    assert((a + b) + c =~= a + (b + c));
}

/// Successfully read entries were stored in exactly their canonical form.
pub proof fn lemma_dec_entries_canon(b: Seq<u8>, count: nat)
    requires
        dec_entries(b, count) is Some,
    ensures
        ({
            let (s, rest) = dec_entries(b, count)->0;
            &&& b == entries_enc(s) + rest
            &&& s.len() == count
            &&& forall|i: int|
                0 <= i < s.len() ==> {
                    &&& str_bounded((#[trigger] s[i]).0)
                    &&& str_bounded(s[i].1.url)
                    &&& str_bounded(s[i].1.username)
                    &&& str_bounded(s[i].1.password)
                }
        }),
    decreases count,
{
    let (s, rest) = dec_entries(b, count)->0;
    if count == 0 {
        assert(b =~= entries_enc(s) + rest);
    } else {
        let (id, r1) = dec_str(b)->0;
        let (url, r2) = dec_str(r1)->0;
        let (un, r3) = dec_str(r2)->0;
        let (pw, r4) = dec_str(r3)->0;
        let (tail, r5) = dec_entries(r4, (count - 1) as nat)->0;
        lemma_dec_str_canon(b);
        lemma_dec_str_canon(r1);
        lemma_dec_str_canon(r2);
        lemma_dec_str_canon(r3);
        lemma_dec_entries_canon(r4, (count - 1) as nat);
        let e = (id, PrivacyV { url, username: un, password: pw });
        assert(s =~= seq![e] + tail);
        assert(s.drop_first() =~= tail);
        assert(s[0] == e);
        assert(entries_enc(s) == entry_enc(e) + entries_enc(tail));
        let s1 = str_enc(id);
        let s2 = str_enc(url);
        let s3 = str_enc(un);
        let s4 = str_enc(pw);
        let t = entries_enc(tail);
        // b == s1 + (s2 + (s3 + (s4 + (t + rest)))); reassociate to
        // ((((s1 + s2) + s3) + s4) + t) + rest == entries_enc(s) + rest.
        seq_assoc(s4, t, rest);
        seq_assoc(s3, s4 + t, rest);
        seq_assoc(s3, s4, t);
        seq_assoc(s2, (s3 + s4) + t, rest);
        seq_assoc(s2, s3 + s4, t);
        seq_assoc(s2, s3, s4);
        seq_assoc(s1, ((s2 + s3) + s4) + t, rest);
        seq_assoc(s1, (s2 + s3) + s4, t);
        seq_assoc(s1, s2 + s3, s4);
        seq_assoc(s1, s2, s3);
        assert(b == ((((s1 + s2) + s3) + s4) + t) + rest);
        assert(entry_enc(e) == ((s1 + s2) + s3) + s4);
        assert(b == entries_enc(s) + rest);
    }
}

/// Deserializing the canonical image of a well-formed vault gives the
/// vault back.
pub proof fn lemma_vault_roundtrip(k: KeeperV)
    requires
        keeper_bounded(k),
        unique_keys(k.heap),
    ensures
        vault_dec(vault_enc(k)) == Some(k),
{
    vstd::bytes::lemma_auto_spec_u64_to_from_le_bytes();
    let b = vault_enc(k);
    let countb = spec_u64_to_le_bytes(k.heap.len() as u64);
    assert(b =~= str_enc(k.username) + (countb + entries_enc(k.heap)));
    lemma_dec_str_enc(k.username, countb + entries_enc(k.heap));
    let r1 = countb + entries_enc(k.heap);
    assert(r1.take(8) =~= countb);
    assert(r1.skip(8) =~= entries_enc(k.heap));
    assert(entries_enc(k.heap) + Seq::<u8>::empty() =~= entries_enc(k.heap));
    lemma_dec_entries_enc(k.heap, Seq::empty());
}

/// A successfully deserialized vault was stored in exactly its
/// canonical form, is well-formed, and is bounded.
pub proof fn lemma_vault_canon(b: Seq<u8>)
    requires
        vault_dec(b) is Some,
    ensures
        ({
            let k = vault_dec(b)->0;
            &&& b == vault_enc(k)
            &&& keeper_bounded(k)
            &&& k.wf()
        }),
{
    vstd::bytes::lemma_auto_spec_u64_to_from_le_bytes();
    let k = vault_dec(b)->0;
    let (username, r1) = dec_str(b)->0;
    lemma_dec_str_canon(b);
    let count = spec_u64_from_le_bytes(r1.take(8));
    let (entries, rest) = dec_entries(r1.skip(8), count as nat)->0;
    lemma_dec_entries_canon(r1.skip(8), count as nat);
    assert(r1.take(8).len() == 8);
    assert(spec_u64_to_le_bytes(count) == r1.take(8));
    assert(entries.len() == count);
    assert(r1 =~= r1.take(8) + r1.skip(8));
    assert(rest =~= Seq::<u8>::empty());
    assert(entries_enc(entries) + rest =~= entries_enc(entries));
    assert(b =~= vault_enc(k));
}

/// Appends one length-prefixed string to the output.
fn push_str_enc(out: &mut Vec<u8>, s: &str)
    ensures
        final(out)@ == old(out)@ + str_enc(s@),
        str_bounded(s@),
{
    let b = s.as_bytes();
    let n = b.len();
    let header = vstd::bytes::u64_to_le_bytes(n as u64);
    let ghost mid = old(out)@ + spec_u64_to_le_bytes(encode_utf8(s@).len() as u64);
    out.extend_from_slice(header.as_slice());
    proof {
        assert(out@ =~= mid);
    }
    out.extend_from_slice(b);
    proof {
        assert(out@ =~= old(out)@ + str_enc(s@));
    }
}

/// Serializes a vault into its canonical byte representation.
pub fn serialize_vault(k: &Keeper) -> (r: Vec<u8>)
    ensures
        r@ == vault_enc(k@),
        keeper_bounded(k@),
{
    let mut out: Vec<u8> = Vec::new();
    push_str_enc(&mut out, k.username.as_str());
    let count = vstd::bytes::u64_to_le_bytes(k.heap.len() as u64);
    out.extend_from_slice(count.as_slice());
    let ghost head = str_enc(k@.username) + spec_u64_to_le_bytes(k@.heap.len() as u64);
    proof {
        assert(out@ =~= head);
    }
    let mut i: usize = 0;
    while i < k.heap.len()
        invariant
            0 <= i <= k.heap.len(),
            k@.heap.len() == k.heap.len(),
            out@ == head + entries_enc(k@.heap.take(i as int)),
            forall|j: int|
                0 <= j < i ==> {
                    &&& str_bounded((#[trigger] k@.heap[j]).0)
                    &&& str_bounded(k@.heap[j].1.url)
                    &&& str_bounded(k@.heap[j].1.username)
                    &&& str_bounded(k@.heap[j].1.password)
                },
        decreases k.heap.len() - i,
    {
        let ghost prev = out@;
        let pair = &k.heap[i];
        push_str_enc(&mut out, pair.0.as_str());
        push_str_enc(&mut out, pair.1.url.as_str());
        push_str_enc(&mut out, pair.1.username.as_str());
        push_str_enc(&mut out, pair.1.password.as_str());
        proof {
            let e = k@.heap[i as int];
            assert(out@ =~= prev + entry_enc(e));
            assert(k@.heap.take(i as int + 1) =~= k@.heap.take(i as int) + seq![e]);
            lemma_entries_enc_concat(k@.heap.take(i as int), seq![e]);
            assert(seq![e].drop_first() =~= Seq::<(Seq<char>, PrivacyV)>::empty());
            reveal_with_fuel(entries_enc, 2);
            assert(entries_enc(seq![e]) =~= entry_enc(e));
            assert(out@ =~= head + entries_enc(k@.heap.take(i as int + 1)));
        }
        i = i + 1;
    }
    proof {
        assert(k@.heap.take(k@.heap.len() as int) =~= k@.heap);
        assert(out@ =~= vault_enc(k@));
    }
    out
}

/// Reads one length-prefixed string starting at `pos`, yielding the
/// string and the position just past it.
fn read_str(b: &[u8], pos: usize) -> (r: Option<(String, usize)>)
    requires
        pos <= b@.len(),
    ensures
        match r {
            Some(p) => {
                &&& dec_str(b@.skip(pos as int)) == Some((p.0@, b@.skip(p.1 as int)))
                &&& pos + 8 <= p.1 <= b@.len()
            },
            None => dec_str(b@.skip(pos as int)) is None,
        },
{
    let total = b.len();
    if total - pos < 8 {
        return None;
    }
    let header = vstd::slice::slice_subrange(b, pos, pos + 8);
    let n64 = vstd::bytes::u64_from_le_bytes(header);
    proof {
        assert(b@.skip(pos as int).take(8) =~= b@.subrange(pos as int, pos as int + 8));
    }
    let rem = total - pos - 8;
    if n64 > rem as u64 {
        return None;
    }
    let n = n64 as usize;
    let payload = vstd::slice::slice_subrange(b, pos + 8, pos + 8 + n);
    proof {
        assert(b@.skip(pos as int).subrange(8, 8 + n as int) =~= payload@);
    }
    let v = vstd::slice::slice_to_vec(payload);
    match crate::encoding::bytes_to_string(v) {
        None => None,
        Some(s) => {
            proof {
                assert(b@.skip(pos as int).skip(8 + n as int) =~= b@.skip(pos as int + 8 + n as int));
            }
            Some((s, pos + 8 + n))
        },
    }
}

/// Deserializes a canonical byte representation back into a vault;
/// malformed input is rejected.
#[verifier::loop_isolation(false)]
#[verifier::rlimit(100)]
pub fn deserialize_vault(b: &[u8]) -> (r: Option<Keeper>)
    ensures
        r is Some <==> vault_dec(b@) is Some,
        r is Some ==> vault_dec(b@) == Some(r->0@),
        r is Some ==> r->0@.wf(),
{
    proof {
        assert(b@.skip(0) =~= b@);
    }
    let (username, p1) = match read_str(b, 0) {
        None => {
            return None;
        },
        Some(x) => x,
    };
    let total = b.len();
    if total - p1 < 8 {
        return None;
    }
    let countb = vstd::slice::slice_subrange(b, p1, p1 + 8);
    let count64 = vstd::bytes::u64_from_le_bytes(countb);
    proof {
        assert(b@.skip(p1 as int).take(8) =~= countb@);
    }
    let ghost start: int = p1 as int + 8;
    proof {
        assert(b@.skip(p1 as int).skip(8) =~= b@.skip(start));
    }
    let mut heap: Vec<(String, Privacy)> = Vec::new();
    let mut pos: usize = p1 + 8;
    let mut k: u64 = 0;
    proof {
        assert(heap@.map_values(|e: (String, Privacy)| (e.0@, e.1@)) =~= Seq::<
            (Seq<char>, PrivacyV),
        >::empty());
    }
    while k < count64
        invariant
            p1 + 8 <= pos <= total,
            total == b@.len(),
            k <= count64,
            heap@.map_values(|e: (String, Privacy)| (e.0@, e.1@)).len() == k,
            dec_entries(b@.skip(start), count64 as nat) == (match dec_entries(
                b@.skip(pos as int),
                (count64 - k) as nat,
            ) {
                None => None::<(Seq<(Seq<char>, PrivacyV)>, Seq<u8>)>,
                Some((tail, r)) => Some(
                    (heap@.map_values(|e: (String, Privacy)| (e.0@, e.1@)) + tail, r),
                ),
            }),
        decreases count64 - k,
    {
        let ghost es = heap@.map_values(|e: (String, Privacy)| (e.0@, e.1@));
        let ghost cur = b@.skip(pos as int);
        let ghost rem = (count64 - k) as nat;
        let (id, q1) = match read_str(b, pos) {
            None => {
                return None;
            },
            Some(x) => x,
        };
        let (url, q2) = match read_str(b, q1) {
            None => {
                return None;
            },
            Some(x) => x,
        };
        let (un, q3) = match read_str(b, q2) {
            None => {
                return None;
            },
            Some(x) => x,
        };
        let (pw, q4) = match read_str(b, q3) {
            None => {
                return None;
            },
            Some(x) => x,
        };
        let ghost e = (id@, PrivacyV { url: url@, username: un@, password: pw@ });
        heap.push((id, Privacy { url, username: un, password: pw }));
        proof {
            assert(heap@.map_values(|x: (String, Privacy)| (x.0@, x.1@)) =~= es + seq![e]);
            assert forall|tail: Seq<(Seq<char>, PrivacyV)>| true implies (es + seq![e]) + tail =~= es
                + (seq![e] + tail) by {}
        }
        pos = q4;
        k = k + 1;
    }
    proof {
        let es = heap@.map_values(|e: (String, Privacy)| (e.0@, e.1@));
        assert(dec_entries(b@.skip(pos as int), 0) == Some(
            (Seq::<(Seq<char>, PrivacyV)>::empty(), b@.skip(pos as int)),
        ));
        assert(es + Seq::<(Seq<char>, PrivacyV)>::empty() =~= es);
    }
    if pos != total {
        proof {
            assert(b@.skip(pos as int).len() > 0);
        }
        return None;
    }
    proof {
        assert(b@.skip(pos as int).len() == 0);
    }
    // Reject duplicate ids: the canonical form of a vault has none.
    let ghost es = heap@.map_values(|e: (String, Privacy)| (e.0@, e.1@));
    let n = heap.len();
    let mut i: usize = 1;
    while i < n
        invariant
            1 <= i <= n || n == 0,
            n == heap@.len(),
            es == heap@.map_values(|e: (String, Privacy)| (e.0@, e.1@)),
            es.len() == n,
            forall|x: int, y: int| 0 <= x < y < i ==> (#[trigger] es[x]).0 != (#[trigger] es[y]).0,
        decreases n - i,
    {
        let mut j: usize = 0;
        while j < i
            invariant
                0 <= j <= i < n,
                n == heap@.len(),
                es == heap@.map_values(|e: (String, Privacy)| (e.0@, e.1@)),
                es.len() == n,
                forall|y: int| 0 <= y < j ==> (#[trigger] es[y]).0 != es[i as int].0,
            decreases i - j,
        {
            if crate::encoding::str_eq(heap[j].0.as_str(), heap[i].0.as_str()) {
                proof {
                    assert(es[j as int].0 == es[i as int].0);
                    assert(!unique_keys(es));
                }
                return None;
            }
            j = j + 1;
        }
        i = i + 1;
    }
    proof {
        assert(unique_keys(es));
    }
    Some(Keeper { username, heap })
}

} // verus!
