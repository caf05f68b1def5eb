//! The canonical wire form for the sidecar's three sequences: each sequence
//! is a length-prefixed list of fixed-size byte strings, and the three lists
//! stand back to back with no enclosing header.

use vstd::prelude::*;
use vstd::arithmetic::div_mod::lemma_fundamental_div_mod;

verus! {

/// Decoding failure: the input is not a canonical encoding.
#[derive(Clone, Copy, Debug, PartialEq, Eq)]
pub enum RlpError {
    /// The bytes do not form a canonical list of fixed-size strings.
    Invalid,
}

/// The minimal big-endian byte representation of `n` (empty for 0).
pub open spec fn be_bytes(n: nat) -> Seq<u8>
    decreases n,
{
    if n == 0 {
        Seq::empty()
    } else {
        be_bytes(n / 256) + seq![(n % 256) as u8]
    }
}

/// The number of bytes in the minimal big-endian representation of `n`.
pub open spec fn be_len(n: nat) -> nat {
    be_bytes(n).len()
}

/// The value read back from big-endian bytes.
pub open spec fn be_value(s: Seq<u8>) -> nat
    decreases s.len(),
{
    if s.len() == 0 {
        0
    } else {
        (be_value(s.drop_last()) * 256 + s.last()) as nat
    }
}

/// Reading back the big-endian bytes of `n` yields `n`.
pub proof fn lemma_be_value_of_be_bytes(n: nat)
    ensures
        be_value(be_bytes(n)) == n,
    decreases n,
{
    if n > 0 {
        let s = be_bytes(n);
        assert(s == be_bytes(n / 256) + seq![(n % 256) as u8]);
        assert(s.drop_last() =~= be_bytes(n / 256));
        assert(s.last() == (n % 256) as u8);
        lemma_be_value_of_be_bytes(n / 256);
        lemma_fundamental_div_mod(n as int, 256);
    }
}

/// The big-endian bytes of a positive value never start with a zero byte.
pub proof fn lemma_be_bytes_first_nonzero(n: nat)
    requires
        n > 0,
    ensures
        be_bytes(n).len() >= 1,
        be_bytes(n)[0] != 0,
    decreases n,
{
    if n < 256 {
        assert(n / 256 == 0);
        assert(be_bytes(0) == Seq::<u8>::empty());
        assert(be_bytes(n) =~= seq![(n % 256) as u8]);
    } else {
        lemma_be_bytes_first_nonzero(n / 256);
        assert(be_bytes(n)[0] == be_bytes(n / 256)[0]);
    }
}

/// 256 raised to the power `k`.
pub open spec fn pow256(k: nat) -> nat
    decreases k,
{
    if k == 0 {
        1
    } else {
        256 * pow256((k - 1) as nat)
    }
}

/// A value below `256^k` needs at most `k` big-endian bytes.
pub proof fn lemma_be_len_bound(n: nat, k: nat)
    requires
        n < pow256(k),
    ensures
        be_len(n) <= k,
    decreases k,
{
    if n > 0 {
        assert(k > 0);
        assert(n / 256 < pow256((k - 1) as nat)) by {
            lemma_fundamental_div_mod(n as int, 256);
        }
        lemma_be_len_bound(n / 256, (k - 1) as nat);
    }
}

/// Every usize value needs at most 8 big-endian bytes.
pub proof fn lemma_be_len_usize(n: usize)
    ensures
        be_len(n as nat) <= 8,
{
    assert(pow256(8) == 0x1_0000_0000_0000_0000) by {
        reveal_with_fuel(pow256, 9);
    }
    assert((n as nat) < pow256(8));
    lemma_be_len_bound(n as nat, 8);
}

/// The header that precedes a byte string of `len` bytes (`len >= 2`).
pub open spec fn str_header(len: nat) -> Seq<u8> {
    if len <= 55 {
        seq![(0x80 + len) as u8]
    } else {
        seq![(0xb7 + be_len(len)) as u8] + be_bytes(len)
    }
}

/// The header that precedes a list whose payload holds `payload` bytes.
pub open spec fn list_header(payload: nat) -> Seq<u8> {
    if payload <= 55 {
        seq![(0xc0 + payload) as u8]
    } else {
        seq![(0xf7 + be_len(payload)) as u8] + be_bytes(payload)
    }
}

/// One encoded byte string: its header followed by its bytes.
pub open spec fn enc_str(b: Seq<u8>) -> Seq<u8> {
    str_header(b.len()) + b
}

/// The payload of an encoded list: the encoded items, back to back.
pub open spec fn enc_items(items: Seq<Seq<u8>>) -> Seq<u8>
    decreases items.len(),
{
    if items.len() == 0 {
        Seq::empty()
    } else {
        enc_str(items[0]) + enc_items(items.drop_first())
    }
}

/// An encoded list: its header followed by its payload.
pub open spec fn enc_list(items: Seq<Seq<u8>>) -> Seq<u8> {
    list_header(enc_items(items).len()) + enc_items(items)
}

/// Appending an item to a list appends its encoding to the payload.
pub proof fn lemma_enc_items_push(items: Seq<Seq<u8>>, x: Seq<u8>)
    ensures
        enc_items(items.push(x)) == enc_items(items) + enc_str(x),
    decreases items.len(),
{
    if items.len() == 0 {
        assert(items.push(x).drop_first() =~= items);
        assert(enc_items(items.push(x)) =~= enc_items(items) + enc_str(x));
    } else {
        assert(items.push(x).drop_first() =~= items.drop_first().push(x));
        lemma_enc_items_push(items.drop_first(), x);
        assert(enc_items(items.push(x)) =~= enc_items(items) + enc_str(x));
    }
}

/// The payload of a list of `count` items of `elem_len` bytes each grows
/// linearly with the count.
pub proof fn lemma_enc_items_len_uniform(items: Seq<Seq<u8>>, elem_len: nat)
    requires
        forall|i: int| 0 <= i < items.len() ==> #[trigger] items[i].len() == elem_len,
    ensures
        enc_items(items).len() == items.len() * (str_header(elem_len).len() + elem_len),
    decreases items.len(),
{
    let step = str_header(elem_len).len() + elem_len;
    if items.len() == 0 {
        assert(0 * step == 0) by (nonlinear_arith);
    } else {
        lemma_enc_items_len_uniform(items.drop_first(), elem_len);
        assert(enc_items(items).len() == step + (items.len() - 1) * step);
        assert(step + (items.len() - 1) * step == items.len() * step) by (nonlinear_arith);
    }
}

/// The number of bytes in the header of a list with a `payload`-byte payload.
pub fn list_header_len(payload: usize) -> (r: usize)
    ensures
        r as nat == list_header(payload as nat).len(),
        1 <= r <= 9,
{
    if payload <= 55 {
        1
    } else {
        let ll = be_len_exec(payload);
        1 + ll
    }
}

/// `pow256` grows with its exponent.
pub proof fn lemma_pow256_increases(a: nat, b: nat)
    requires
        a <= b,
    ensures
        pow256(a) <= pow256(b),
    decreases b,
{
    if a < b {
        lemma_pow256_increases(a, (b - 1) as nat);
    }
}

/// Decodes the payload of a list of byte strings that all hold `elem_len`
/// bytes: each item must carry exactly the canonical header for that length.
pub open spec fn dec_items(payload: Seq<u8>, elem_len: nat) -> Option<Seq<Seq<u8>>>
    decreases payload.len(),
{
    let h = str_header(elem_len);
    let step = h.len() + elem_len;
    if payload.len() == 0 {
        Some(Seq::empty())
    } else if elem_len > 0 && payload.len() >= step && payload.take(h.len() as int) == h {
        match dec_items(payload.skip(step as int), elem_len) {
            Some(rest) => Some(seq![payload.subrange(h.len() as int, step as int)] + rest),
            None => None,
        }
    } else {
        None
    }
}

/// Decodes one list of `elem_len`-byte strings from the front of `buf`:
/// the items and the number of bytes consumed, or `None` when `buf` does
/// not start with a canonical such list.
pub open spec fn dec_list(buf: Seq<u8>, elem_len: nat) -> Option<(Seq<Seq<u8>>, nat)> {
    if buf.len() == 0 {
        None
    } else {
        let b0 = buf[0];
        if b0 < 0xc0 {
            None
        } else if b0 <= 0xf7 {
            let p = (b0 - 0xc0) as nat;
            if buf.len() >= 1 + p {
                match dec_items(buf.subrange(1, 1 + p as int), elem_len) {
                    Some(items) => Some((items, (1 + p) as nat)),
                    None => None,
                }
            } else {
                None
            }
        } else {
            let ll = (b0 - 0xf7) as nat;
            if buf.len() >= 1 + ll {
                let lenbytes = buf.subrange(1, (1 + ll) as int);
                let p = be_value(lenbytes);
                if lenbytes[0] != 0 && p > 55 && buf.len() >= 1 + ll + p {
                    match dec_items(buf.subrange((1 + ll) as int, (1 + ll + p) as int), elem_len) {
                        Some(items) => Some((items, (1 + ll + p) as nat)),
                        None => None,
                    }
                } else {
                    None
                }
            } else {
                None
            }
        }
    }
}

/// Decoding the encoded payload of uniform items gives the items back.
pub proof fn lemma_dec_items_of_enc(items: Seq<Seq<u8>>, elem_len: nat)
    requires
        2 <= elem_len,
        forall|i: int| 0 <= i < items.len() ==> #[trigger] items[i].len() == elem_len,
    ensures
        dec_items(enc_items(items), elem_len) == Some(items),
    decreases items.len(),
{
    let h = str_header(elem_len);
    let step = h.len() + elem_len;
    if items.len() == 0 {
        assert(enc_items(items).len() == 0);
    } else {
        let payload = enc_items(items);
        assert(payload == enc_str(items[0]) + enc_items(items.drop_first()));
        assert(items[0].len() == elem_len);
        assert(enc_str(items[0]) == h + items[0]);
        assert(payload.len() >= step);
        assert(payload.take(h.len() as int) =~= h);
        assert(payload.subrange(h.len() as int, step as int) =~= items[0]);
        assert(payload.skip(step as int) =~= enc_items(items.drop_first()));
        lemma_dec_items_of_enc(items.drop_first(), elem_len);
        assert(seq![payload.subrange(h.len() as int, step as int)] + items.drop_first() =~= items);
    }
}

/// Decoding an encoded list, with anything after it, gives the items back
/// and consumes exactly the list's bytes.
pub proof fn lemma_dec_list_of_enc(items: Seq<Seq<u8>>, elem_len: nat, tail: Seq<u8>)
    requires
        2 <= elem_len,
        forall|i: int| 0 <= i < items.len() ==> #[trigger] items[i].len() == elem_len,
        enc_items(items).len() <= u64::MAX,
    ensures
        dec_list(enc_list(items) + tail, elem_len) == Some((
            items,
            enc_list(items).len() as nat,
        )),
{
    let p = enc_items(items);
    let pl = p.len();
    let buf = enc_list(items) + tail;
    lemma_dec_items_of_enc(items, elem_len);
    if pl <= 55 {
        let b0 = (0xc0 + pl) as u8;
        assert(list_header(pl) == seq![b0]);
        assert(buf[0] == b0);
        assert(buf.len() >= 1 + pl);
        assert(buf.subrange(1, 1 + pl as int) =~= p);
    } else {
        let ll = be_len(pl);
        assert(pow256(8) == 0x1_0000_0000_0000_0000) by {
            reveal_with_fuel(pow256, 9);
        }
        lemma_be_len_bound(pl, 8);
        lemma_be_bytes_first_nonzero(pl);
        assert(1 <= ll <= 8);
        let b0 = (0xf7 + ll) as u8;
        assert(list_header(pl) == seq![b0] + be_bytes(pl));
        assert(buf[0] == b0);
        assert(b0 > 0xf7);
        assert((b0 - 0xf7) as nat == ll);
        assert(buf.len() >= 1 + ll);
        assert(buf.subrange(1, (1 + ll) as int) =~= be_bytes(pl));
        lemma_be_value_of_be_bytes(pl);
        assert(buf.len() >= 1 + ll + pl);
        assert(buf.subrange((1 + ll) as int, (1 + ll + pl) as int) =~= p);
        assert(enc_list(items).len() == 1 + ll + pl);
    }
}

/// Appends the minimal big-endian bytes of `n`.
pub fn push_be_bytes(out: &mut Vec<u8>, n: usize)
    ensures
        final(out)@ == old(out)@ + be_bytes(n as nat),
    decreases n,
{
    if n == 0 {
        assert(final(out)@ =~= old(out)@ + be_bytes(n as nat));
    } else {
        let ghost prefix = out@;
        push_be_bytes(out, n / 256);
        out.push((n % 256) as u8);
        assert(out@ =~= prefix + be_bytes(n as nat));
    }
}

/// The number of bytes in the minimal big-endian representation of `n`.
pub fn be_len_exec(n: usize) -> (r: usize)
    ensures
        r as nat == be_len(n as nat),
        r <= 8,
{
    proof {
        lemma_be_len_usize(n);
    }
    let mut m: usize = n;
    let mut r: usize = 0;
    while m > 0
        invariant
            r + be_len(m as nat) == be_len(n as nat),
            be_len(n as nat) <= 8,
        decreases m,
    {
        assert(be_len(m as nat) == be_len((m / 256) as nat) + 1);
        m = m / 256;
        r = r + 1;
    }
    r
}

/// Appends the header of a byte string of `len` bytes.
pub fn write_str_header(out: &mut Vec<u8>, len: usize)
    requires
        2 <= len,
    ensures
        final(out)@ == old(out)@ + str_header(len as nat),
{
    let ghost prefix = out@;
    if len <= 55 {
        out.push(0x80 + len as u8);
        assert(out@ =~= prefix + str_header(len as nat));
    } else {
        let ll = be_len_exec(len);
        out.push(0xb7 + ll as u8);
        push_be_bytes(out, len);
        assert(out@ =~= prefix + str_header(len as nat));
    }
}

/// Appends the header of a list with a `payload`-byte payload.
pub fn write_list_header(out: &mut Vec<u8>, payload: usize)
    ensures
        final(out)@ == old(out)@ + list_header(payload as nat),
{
    let ghost prefix = out@;
    if payload <= 55 {
        out.push(0xc0 + payload as u8);
        assert(out@ =~= prefix + list_header(payload as nat));
    } else {
        let ll = be_len_exec(payload);
        out.push(0xf7 + ll as u8);
        push_be_bytes(out, payload);
        assert(out@ =~= prefix + list_header(payload as nat));
    }
}

/// Appends one encoded byte string: its header, then its bytes.
pub fn encode_bytes(out: &mut Vec<u8>, b: &Vec<u8>)
    requires
        2 <= b@.len(),
    ensures
        final(out)@ == old(out)@ + enc_str(b@),
{
    let ghost prefix = out@;
    write_str_header(out, b.len());
    let mut i: usize = 0;
    while i < b.len()
        invariant
            i <= b@.len(),
            out@ == prefix + str_header(b@.len()) + b@.take(i as int),
        decreases b@.len() - i,
    {
        let ghost before = out@;
        out.push(b[i]);
        assert(out@ =~= prefix + str_header(b@.len()) + b@.take(i as int + 1));
        i = i + 1;
    }
    assert(out@ =~= prefix + enc_str(b@));
}

/// Big-endian bytes with a nonzero first byte read back as a positive value.
pub proof fn lemma_be_value_pos(s: Seq<u8>)
    requires
        s.len() >= 1,
        s[0] != 0,
    ensures
        be_value(s) > 0,
    decreases s.len(),
{
    if s.len() > 1 {
        assert(s.drop_last()[0] == s[0]);
        lemma_be_value_pos(s.drop_last());
    }
}

/// Big-endian bytes with a nonzero first byte are the minimal representation
/// of the value they carry.
pub proof fn lemma_be_bytes_of_be_value(s: Seq<u8>)
    requires
        s.len() >= 1,
        s[0] != 0,
    ensures
        be_bytes(be_value(s)) == s,
    decreases s.len(),
{
    let n = be_value(s);
    lemma_be_value_pos(s);
    vstd::arithmetic::div_mod::lemma_fundamental_div_mod_converse(
        n as int,
        256,
        be_value(s.drop_last()) as int,
        s.last() as int,
    );
    assert(n / 256 == be_value(s.drop_last()));
    assert(n % 256 == s.last());
    if s.len() == 1 {
        assert(s.drop_last().len() == 0);
        assert(be_value(s.drop_last()) == 0);
        assert(be_bytes(0) == Seq::<u8>::empty());
        assert(be_bytes(n) =~= s);
    } else {
        assert(s.drop_last()[0] == s[0]);
        lemma_be_bytes_of_be_value(s.drop_last());
        assert(be_bytes(n) =~= s);
    }
}

/// Re-encoding the items decoded from a list payload gives the payload back.
pub proof fn lemma_enc_of_dec_items(payload: Seq<u8>, elem_len: nat)
    requires
        2 <= elem_len,
        dec_items(payload, elem_len) is Some,
    ensures
        enc_items(dec_items(payload, elem_len).unwrap()) == payload,
    decreases payload.len(),
{
    let h = str_header(elem_len);
    let step = h.len() + elem_len;
    if payload.len() == 0 {
        assert(enc_items(dec_items(payload, elem_len).unwrap()) =~= payload);
    } else {
        let elem = payload.subrange(h.len() as int, step as int);
        let rest = dec_items(payload.skip(step as int), elem_len).unwrap();
        let items = dec_items(payload, elem_len).unwrap();
        assert(items == seq![elem] + rest);
        lemma_enc_of_dec_items(payload.skip(step as int), elem_len);
        assert(items.drop_first() =~= rest);
        assert(items[0] == elem);
        assert(elem.len() == elem_len);
        assert(enc_items(items) == enc_str(elem) + enc_items(rest));
        assert(payload.take(h.len() as int) == h);
        assert((h + elem) + payload.skip(step as int) =~= payload);
        assert(enc_items(items) =~= payload);
    }
}

/// Re-encoding the items decoded from the front of a buffer gives back
/// exactly the consumed prefix.
pub proof fn lemma_enc_of_dec_list(buf: Seq<u8>, elem_len: nat)
    requires
        2 <= elem_len,
        dec_list(buf, elem_len) is Some,
    ensures
        ({
            let (items, consumed) = dec_list(buf, elem_len).unwrap();
            &&& consumed <= buf.len()
            &&& enc_list(items) == buf.take(consumed as int)
        }),
{
    let (items, consumed) = dec_list(buf, elem_len).unwrap();
    let b0 = buf[0];
    if b0 <= 0xf7 {
        let p = (b0 - 0xc0) as nat;
        let payload = buf.subrange(1, 1 + p as int);
        lemma_enc_of_dec_items(payload, elem_len);
        assert(enc_items(items) == payload);
        assert(enc_items(items).len() == p);
        assert(list_header(p) == seq![b0]);
        assert(enc_list(items) =~= buf.take(consumed as int));
    } else {
        let ll = (b0 - 0xf7) as nat;
        let lenbytes = buf.subrange(1, (1 + ll) as int);
        let p = be_value(lenbytes);
        let payload = buf.subrange((1 + ll) as int, (1 + ll + p) as int);
        lemma_enc_of_dec_items(payload, elem_len);
        assert(enc_items(items) == payload);
        assert(enc_items(items).len() == p);
        lemma_be_bytes_of_be_value(lenbytes);
        assert(be_bytes(p) == lenbytes);
        assert(be_len(p) == ll);
        assert(list_header(p) =~= seq![b0] + lenbytes);
        assert(enc_list(items) =~= buf.take(consumed as int));
    }
}

/// Builds the header of an `elem_len`-byte string as a vector.
pub(crate) fn str_header_vec(elem_len: usize) -> (r: Vec<u8>)
    requires
        2 <= elem_len,
    ensures
        r@ == str_header(elem_len as nat),
        1 <= r@.len() <= 9,
{
    let mut v: Vec<u8> = Vec::new();
    write_str_header(&mut v, elem_len);
    proof {
        lemma_be_len_usize(elem_len);
        assert(v@ =~= str_header(elem_len as nat));
    }
    v
}

/// `Some(acc + rest)` when `o` is `Some(rest)`, else `None`.
pub open spec fn opt_prepend(acc: Seq<Seq<u8>>, o: Option<Seq<Seq<u8>>>) -> Option<
    Seq<Seq<u8>>,
> {
    match o {
        Some(rest) => Some(acc + rest),
        None => None,
    }
}

/// Decodes the items of a list payload that spans `buf[pstart..pend]`.
fn parse_items(buf: &Vec<u8>, pstart: usize, pend: usize, elem_len: usize) -> (r: Result<
    Vec<Vec<u8>>,
    RlpError,
>)
    requires
        2 <= elem_len,
        elem_len + 9 <= usize::MAX,
        pstart <= pend <= buf@.len(),
    ensures
        match r {
            Ok(items) => {
                &&& dec_items(buf@.subrange(pstart as int, pend as int), elem_len as nat) == Some(
                    items@.map_values(|v: Vec<u8>| v@),
                )
                &&& forall|i: int|
                    0 <= i < items@.len() ==> (#[trigger] items@[i])@.len() == elem_len
            },
            Err(_) => dec_items(buf@.subrange(pstart as int, pend as int), elem_len as nat)
                is None,
        },
{
    let hvec = str_header_vec(elem_len);
    let hlen: usize = hvec.len();
    let step: usize = hlen + elem_len;
    let ghost l = elem_len as nat;
    let mut items: Vec<Vec<u8>> = Vec::new();
    let mut pos: usize = pstart;
    while pos < pend
        invariant
            2 <= elem_len,
            pstart <= pos <= pend <= buf.len(),
            hvec@ == str_header(l),
            l == elem_len as nat,
            hlen == hvec@.len(),
            1 <= hlen <= 9,
            step == hlen + elem_len,
            forall|i: int| 0 <= i < items@.len() ==> (#[trigger] items@[i])@.len() == elem_len,
            dec_items(buf@.subrange(pstart as int, pend as int), l) == opt_prepend(
                items@.map_values(|v: Vec<u8>| v@),
                dec_items(buf@.subrange(pos as int, pend as int), l),
            ),
        decreases pend - pos,
    {
        let ghost remaining = buf@.subrange(pos as int, pend as int);
        assert(remaining.len() > 0);
        if pend - pos < step {
            assert(dec_items(remaining, l) is None);
            return Err(RlpError::Invalid);
        }
        let mut j: usize = 0;
        while j < hlen
            invariant
                j <= hlen,
                pstart <= pos,
                pos + step <= pend <= buf.len(),
                l == elem_len as nat,
                2 <= elem_len,
                step == hlen + elem_len,
                hlen == hvec@.len(),
                hvec@ == str_header(l),
                remaining == buf@.subrange(pos as int, pend as int),
                forall|k: int| 0 <= k < j ==> buf@[pos + k] == hvec@[k],
                dec_items(buf@.subrange(pstart as int, pend as int), l) == opt_prepend(
                    items@.map_values(|v: Vec<u8>| v@),
                    dec_items(remaining, l),
                ),
            decreases hlen - j,
        {
            if buf[pos + j] != hvec[j] {
                proof {
                    assert(remaining.take(hlen as int)[j as int] == buf@[pos + j]);
                    assert(remaining.take(hlen as int) != str_header(l));
                    assert(dec_items(remaining, l) is None);
                }
                return Err(RlpError::Invalid);
            }
            j = j + 1;
        }
        let mut elem: Vec<u8> = Vec::new();
        let mut k: usize = 0;
        while k < elem_len
            invariant
                k <= elem_len,
                pos + step <= pend <= buf.len(),
                step == hlen + elem_len,
                elem@ == buf@.subrange((pos + hlen) as int, (pos + hlen + k) as int),
            decreases elem_len - k,
        {
            elem.push(buf[pos + hlen + k]);
            assert(elem@ =~= buf@.subrange((pos + hlen) as int, (pos + hlen + k + 1) as int));
            k = k + 1;
        }
        proof {
            assert(remaining.take(hlen as int) =~= str_header(l));
            assert(remaining.subrange(hlen as int, step as int) =~= elem@);
            assert(remaining.skip(step as int) =~= buf@.subrange((pos + step) as int, pend as int));
            assert(dec_items(remaining, l) == match dec_items(
                buf@.subrange((pos + step) as int, pend as int),
                l,
            ) {
                Some(rest) => Some(seq![elem@] + rest),
                None => None,
            });
        }
        let ghost old_items = items@;
        let ghost e = elem@;
        items.push(elem);
        proof {
            assert(items@.map_values(|v: Vec<u8>| v@) =~= old_items.map_values(
                |v: Vec<u8>| v@,
            ).push(e));
            let acc = old_items.map_values(|v: Vec<u8>| v@);
            match dec_items(buf@.subrange((pos + step) as int, pend as int), l) {
                Some(rest) => {
                    assert(acc + (seq![e] + rest) =~= acc.push(e) + rest);
                },
                None => {},
            }
        }
        pos = pos + step;
    }
    proof {
        assert(buf@.subrange(pend as int, pend as int).len() == 0);
        let m = items@.map_values(|v: Vec<u8>| v@);
        assert(m + Seq::<Seq<u8>>::empty() =~= m);
    }
    Ok(items)
}

/// Decodes one list of `elem_len`-byte strings that starts at `start`,
/// returning the items and the number of bytes consumed.
pub fn parse_list(buf: &Vec<u8>, start: usize, elem_len: usize) -> (r: Result<
    (Vec<Vec<u8>>, usize),
    RlpError,
>)
    requires
        2 <= elem_len,
        elem_len + 9 <= usize::MAX,
        start <= buf@.len(),
    ensures
        match r {
            Ok(pair) => {
                &&& dec_list(buf@.skip(start as int), elem_len as nat) == Some(
                    (pair.0@.map_values(|v: Vec<u8>| v@), pair.1 as nat),
                )
                &&& start + pair.1 <= buf@.len()
                &&& 1 <= pair.1
                &&& forall|i: int|
                    0 <= i < pair.0@.len() ==> (#[trigger] pair.0@[i])@.len() == elem_len
            },
            Err(_) => dec_list(buf@.skip(start as int), elem_len as nat) is None,
        },
{
    let ghost sub = buf@.skip(start as int);
    if start >= buf.len() {
        return Err(RlpError::Invalid);
    }
    let b0 = buf[start];
    assert(b0 == sub[0]);
    if b0 < 0xc0 {
        return Err(RlpError::Invalid);
    }
    let rem: usize = buf.len() - start;
    let (payload_len, hdr_len): (usize, usize) = if b0 <= 0xf7 {
        ((b0 - 0xc0) as usize, 1)
    } else {
        let ll = (b0 - 0xf7) as usize;
        assert(1 <= ll <= 8);
        if rem < 1 + ll {
            return Err(RlpError::Invalid);
        }
        let ghost lenbytes = sub.subrange(1, (1 + ll) as int);
        if buf[start + 1] == 0 {
            assert(lenbytes[0] == 0);
            return Err(RlpError::Invalid);
        }
        let mut acc: u64 = 0;
        let mut j: usize = 0;
        while j < ll
            invariant
                j <= ll,
                ll <= 8,
                start + 1 + ll <= buf.len(),
                lenbytes == buf@.skip(start as int).subrange(1, (1 + ll) as int),
                acc as nat == be_value(lenbytes.take(j as int)),
                acc < pow256(j as nat),
            decreases ll - j,
        {
            let b = buf[start + 1 + j];
            proof {
                assert(lenbytes[j as int] == buf@[start + 1 + j]);
                assert(lenbytes.take(j as int + 1).drop_last() =~= lenbytes.take(j as int));
                assert(lenbytes.take(j as int + 1).last() == lenbytes[j as int]);
                assert(acc * 256 + b < 256 * pow256(j as nat)) by (nonlinear_arith)
                    requires
                        acc < pow256(j as nat),
                        b < 256,
                ;
                assert(256 * pow256(j as nat) == pow256(j as nat + 1));
                lemma_pow256_increases(j as nat + 1, 8);
                assert(pow256(8) == 0x1_0000_0000_0000_0000) by {
                    reveal_with_fuel(pow256, 9);
                }
            }
            acc = acc * 256 + b as u64;
            j = j + 1;
        }
        assert(lenbytes.take(ll as int) =~= lenbytes);
        if acc <= 55 {
            return Err(RlpError::Invalid);
        }
        if acc > usize::MAX as u64 {
            proof {
                assert(sub.len() <= usize::MAX);
                assert(!(sub.len() >= 1 + ll + be_value(lenbytes)));
            }
            return Err(RlpError::Invalid);
        }
        (acc as usize, 1 + ll)
    };
    assert(hdr_len <= rem);
    if payload_len > rem - hdr_len {
        return Err(RlpError::Invalid);
    }
    let pstart: usize = start + hdr_len;
    let pend: usize = pstart + payload_len;
    let ghost l = elem_len as nat;
    proof {
        assert(sub.subrange(hdr_len as int, (hdr_len + payload_len) as int) =~= buf@.subrange(
            pstart as int,
            pend as int,
        ));
    }
    let parsed = parse_items(buf, pstart, pend, elem_len);
    let consumed: usize = hdr_len + payload_len;
    match parsed {
        Ok(items) => {
            proof {
                let m = items@.map_values(|v: Vec<u8>| v@);
                if b0 <= 0xf7 {
                    assert(dec_list(sub, l) == Some((m, consumed as nat)));
                } else {
                    let ll = (b0 - 0xf7) as nat;
                    let lenbytes = sub.subrange(1, (1 + ll) as int);
                    assert(be_value(lenbytes) == payload_len);
                    assert(lenbytes[0] != 0);
                    assert(dec_list(sub, l) == Some((m, consumed as nat)));
                }
            }
            Ok((items, consumed))
        },
        Err(e) => {
            proof {
                assert(dec_items(sub.subrange(hdr_len as int, (hdr_len + payload_len) as int), l)
                    is None);
                assert(dec_list(sub, l) is None);
            }
            Err(e)
        },
    }
}

} // verus!
