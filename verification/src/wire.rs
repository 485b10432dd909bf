use vstd::prelude::*;

verus! {

use crate::varint::{
    dec_uvarint,
    lemma_dec_uvarint_bounds,
    lemma_uvarint_round_trip,
    read_uvarint,
    u64_bound,
    uvarint,
    write_uvarint,
};

// Field numbers of the identify message schema. Every field is
// length-delimited on the wire (wire type two): publicKey, observedAddr and
// each listenAddrs entry are byte blobs, protocolVersion, agentVersion and
// each protocols entry are strings.
pub const FIELD_PUBLIC_KEY: u64 = 1;

pub const FIELD_PROTOCOL_VERSION: u64 = 2;

pub const FIELD_AGENT_VERSION: u64 = 3;

pub const FIELD_LISTEN_ADDRS: u64 = 4;

pub const FIELD_OBSERVED_ADDR: u64 = 5;

pub const FIELD_PROTOCOLS: u64 = 6;

/// One identify message as it stands on the wire: strings and addresses
/// appear as the raw bytes of their length-delimited records.
pub struct Identify {
    pub public_key: Vec<u8>,
    pub protocol_version: Vec<u8>,
    pub agent_version: Vec<u8>,
    pub listen_addrs: Vec<Vec<u8>>,
    pub observed_addr: Vec<u8>,
    pub protocols: Vec<Vec<u8>>,
}

/// The mathematical value of a wire message.
#[verifier::ext_equal]
pub struct IdentifyV {
    pub public_key: Seq<u8>,
    pub protocol_version: Seq<u8>,
    pub agent_version: Seq<u8>,
    pub listen_addrs: Seq<Seq<u8>>,
    pub observed_addr: Seq<u8>,
    pub protocols: Seq<Seq<u8>>,
}

/// The byte sequences held by a sequence of byte vectors.
pub open spec fn bytes_views(items: Seq<Vec<u8>>) -> Seq<Seq<u8>> {
    Seq::new(items.len(), |i: int| items[i]@)
}

impl View for Identify {
    type V = IdentifyV;

    open spec fn view(&self) -> IdentifyV {
        IdentifyV {
            public_key: self.public_key@,
            protocol_version: self.protocol_version@,
            agent_version: self.agent_version@,
            listen_addrs: bytes_views(self.listen_addrs@),
            observed_addr: self.observed_addr@,
            protocols: bytes_views(self.protocols@),
        }
    }
}

/// The message all of whose fields are empty: what a decoder starts from,
/// and what any field missing on the wire stays as.
pub open spec fn msg_empty() -> IdentifyV {
    IdentifyV {
        public_key: Seq::empty(),
        protocol_version: Seq::empty(),
        agent_version: Seq::empty(),
        listen_addrs: Seq::empty(),
        observed_addr: Seq::empty(),
        protocols: Seq::empty(),
    }
}

/// Every field length is below two to the sixty-fourth, so each fits behind
/// a varint length prefix.
pub open spec fn msg_lens_ok(m: IdentifyV) -> bool {
    &&& m.public_key.len() < u64_bound()
    &&& m.protocol_version.len() < u64_bound()
    &&& m.agent_version.len() < u64_bound()
    &&& m.observed_addr.len() < u64_bound()
    &&& forall|i: int|
        0 <= i < m.listen_addrs.len() ==> (#[trigger] m.listen_addrs[i]).len() < u64_bound()
    &&& forall|i: int| 0 <= i < m.protocols.len() ==> (#[trigger] m.protocols[i]).len() < u64_bound()
}

/// One length-delimited record: tag varint, length varint, then the bytes.
pub open spec fn enc_field(f: nat, data: Seq<u8>) -> Seq<u8> {
    uvarint(8 * f + 2) + uvarint(data.len()) + data
}

/// A repeated field: one record per entry, in order.
pub open spec fn enc_rep(f: nat, items: Seq<Seq<u8>>) -> Seq<u8>
    decreases items.len(),
{
    if items.len() == 0 {
        Seq::empty()
    } else {
        enc_field(f, items[0]) + enc_rep(f, items.skip(1))
    }
}

/// The whole message: the six fields in schema order.
pub open spec fn enc_msg(m: IdentifyV) -> Seq<u8> {
    enc_field(1, m.public_key) + enc_field(2, m.protocol_version) + enc_field(3, m.agent_version)
        + enc_rep(4, m.listen_addrs) + enc_field(5, m.observed_addr) + enc_rep(6, m.protocols)
}

/// How one decoded record changes the message being built: singular fields
/// take the latest value, repeated fields append, unknown field numbers are
/// ignored.
pub open spec fn upd_field(m: IdentifyV, f: nat, data: Seq<u8>) -> IdentifyV {
    if f == 1 {
        IdentifyV { public_key: data, ..m }
    } else if f == 2 {
        IdentifyV { protocol_version: data, ..m }
    } else if f == 3 {
        IdentifyV { agent_version: data, ..m }
    } else if f == 4 {
        IdentifyV { listen_addrs: m.listen_addrs.push(data), ..m }
    } else if f == 5 {
        IdentifyV { observed_addr: data, ..m }
    } else if f == 6 {
        IdentifyV { protocols: m.protocols.push(data), ..m }
    } else {
        m
    }
}

/// `upd_field` folded over a sequence of records of one field.
pub open spec fn upd_rep(m: IdentifyV, f: nat, items: Seq<Seq<u8>>) -> IdentifyV
    decreases items.len(),
{
    if items.len() == 0 {
        m
    } else {
        upd_rep(upd_field(m, f, items[0]), f, items.skip(1))
    }
}

/// What decoding a payload yields, given the message built so far: records
/// are read one after the other until the input is exhausted; a truncated or
/// oversized varint, a wire type other than two, or a length running past
/// the end is a decode failure.
pub open spec fn dec_msg_rec(s: Seq<u8>, acc: IdentifyV) -> Option<IdentifyV>
    decreases s.len(),
    via dec_msg_rec_decreases
{
    if s.len() == 0 {
        Some(acc)
    } else {
        match dec_uvarint(s) {
            None => None,
            Some(tag) => {
                if tag.0 % 8 != 2 {
                    None
                } else {
                    match dec_uvarint(s.skip(tag.1 as int)) {
                        None => None,
                        Some(l) => {
                            if l.0 as int > s.len() - tag.1 - l.1 {
                                None
                            } else {
                                let start = tag.1 + l.1;
                                let data = s.subrange(start as int, start + l.0 as int);
                                dec_msg_rec(
                                    s.skip(start + l.0 as int),
                                    upd_field(acc, tag.0 / 8, data),
                                )
                            }
                        },
                    }
                }
            },
        }
    }
}

#[via_fn]
proof fn dec_msg_rec_decreases(s: Seq<u8>, acc: IdentifyV) {
    lemma_dec_uvarint_bounds(s);
    if s.len() != 0 {
        if let Some(tag) = dec_uvarint(s) {
            lemma_dec_uvarint_bounds(s.skip(tag.1 as int));
        }
    }
}

/// What decoding a payload yields, starting from the empty message.
pub open spec fn dec_msg(s: Seq<u8>) -> Option<IdentifyV> {
    dec_msg_rec(s, msg_empty())
}

/// Appends a copy of `data` to `out`.
fn append_bytes(out: &mut Vec<u8>, data: &Vec<u8>)
    ensures
        final(out)@ == old(out)@ + data@,
{
    let mut i: usize = 0;
    assert(out@ =~= old(out)@ + data@.take(0));
    while i < data.len()
        invariant
            i <= data.len(),
            out@ == old(out)@ + data@.take(i as int),
        decreases data.len() - i,
    {
        out.push(data[i]);
        i = i + 1;
        assert(out@ =~= old(out)@ + data@.take(i as int));
    }
    assert(data@.take(data@.len() as int) =~= data@);
}

/// Copies `buf[start..end]` into a fresh vector.
fn copy_range(buf: &Vec<u8>, start: usize, end: usize) -> (r: Vec<u8>)
    requires
        start <= end <= buf.len(),
    ensures
        r@ == buf@.subrange(start as int, end as int),
{
    let mut r: Vec<u8> = Vec::new();
    let mut i: usize = start;
    assert(r@ =~= buf@.subrange(start as int, start as int));
    while i < end
        invariant
            start <= i <= end <= buf.len(),
            r@ == buf@.subrange(start as int, i as int),
        decreases end - i,
    {
        r.push(buf[i]);
        i = i + 1;
        assert(r@ =~= buf@.subrange(start as int, i as int));
    }
    r
}

/// Appends one length-delimited record to `out`.
fn write_field(out: &mut Vec<u8>, f: u64, data: &Vec<u8>)
    requires
        1 <= f <= 6,
    ensures
        final(out)@ == old(out)@ + enc_field(f as nat, data@),
{
    write_uvarint(out, 8 * f + 2);
    write_uvarint(out, data.len() as u64);
    append_bytes(out, data);
    assert(out@ =~= old(out)@ + enc_field(f as nat, data@));
}

/// Appends one record per entry of a repeated field to `out`, in order.
fn write_rep(out: &mut Vec<u8>, f: u64, items: &Vec<Vec<u8>>)
    requires
        1 <= f <= 6,
    ensures
        final(out)@ == old(out)@ + enc_rep(f as nat, bytes_views(items@)),
{
    let ghost views = bytes_views(items@);
    let mut i: usize = 0;
    assert(out@ =~= old(out)@ + enc_rep(f as nat, views.take(0)));
    while i < items.len()
        invariant
            1 <= f <= 6,
            i <= items.len(),
            views == bytes_views(items@),
            out@ == old(out)@ + enc_rep(f as nat, views.take(i as int)),
        decreases items.len() - i,
    {
        write_field(out, f, &items[i]);
        proof {
            assert(views.take(i + 1) =~= views.take(i as int).push(views[i as int]));
            lemma_enc_rep_snoc(f as nat, views.take(i as int), views[i as int]);
            assert(out@ =~= old(out)@ + enc_rep(f as nat, views.take(i + 1)));
        }
        i = i + 1;
    }
    assert(views.take(views.len() as int) =~= views);
}

/// Law: encoding one more entry of a repeated field appends its record.
proof fn lemma_enc_rep_snoc(f: nat, items: Seq<Seq<u8>>, x: Seq<u8>)
    ensures
        enc_rep(f, items.push(x)) == enc_rep(f, items) + enc_field(f, x),
    decreases items.len(),
{
    if items.len() == 0 {
        assert(items.push(x)[0] == x);
        assert(items.push(x).skip(1) =~= Seq::<Seq<u8>>::empty());
        assert(enc_rep(f, Seq::<Seq<u8>>::empty()) == Seq::<u8>::empty());
        assert(enc_rep(f, items.push(x)) == enc_field(f, x) + Seq::<u8>::empty());
        assert(enc_field(f, x) + Seq::<u8>::empty() =~= enc_rep(f, items) + enc_field(f, x));
    } else {
        let a = enc_field(f, items[0]);
        assert(items.push(x).skip(1) =~= items.skip(1).push(x));
        assert(items.push(x)[0] == items[0]);
        assert(enc_rep(f, items.push(x)) == a + enc_rep(f, items.skip(1).push(x)));
        lemma_enc_rep_snoc(f, items.skip(1), x);
        assert(a + (enc_rep(f, items.skip(1)) + enc_field(f, x)) =~= (a + enc_rep(
            f,
            items.skip(1),
        )) + enc_field(f, x));
    }
}

/// Serializes a wire message into the bytes `enc_msg` describes.
pub fn encode_message(m: &Identify) -> (r: Vec<u8>)
    ensures
        r@ == enc_msg(m@),
{
    let mut out: Vec<u8> = Vec::new();
    write_field(&mut out, FIELD_PUBLIC_KEY, &m.public_key);
    write_field(&mut out, FIELD_PROTOCOL_VERSION, &m.protocol_version);
    write_field(&mut out, FIELD_AGENT_VERSION, &m.agent_version);
    write_rep(&mut out, FIELD_LISTEN_ADDRS, &m.listen_addrs);
    write_field(&mut out, FIELD_OBSERVED_ADDR, &m.observed_addr);
    write_rep(&mut out, FIELD_PROTOCOLS, &m.protocols);
    assert(out@ =~= enc_msg(m@));
    out
}

/// Parses a payload into a wire message, exactly as `dec_msg` says: returns
/// nothing precisely when the payload is structurally malformed.
pub fn decode_message(payload: &Vec<u8>) -> (r: Option<Identify>)
    ensures
        match dec_msg(payload@) {
            Some(mv) => r matches Some(m) && m@ == mv,
            None => r is None,
        },
{
    let mut acc = Identify {
        public_key: Vec::new(),
        protocol_version: Vec::new(),
        agent_version: Vec::new(),
        listen_addrs: Vec::new(),
        observed_addr: Vec::new(),
        protocols: Vec::new(),
    };
    assert(acc@ =~= msg_empty());
    let mut pos: usize = 0;
    assert(payload@.skip(0) =~= payload@);
    while pos < payload.len()
        invariant
            pos <= payload.len(),
            dec_msg(payload@) == dec_msg_rec(payload@.skip(pos as int), acc@),
        decreases payload.len() - pos,
    {
        let ghost s = payload@.skip(pos as int);
        let ghost acc0 = acc@;
        let tag = match read_uvarint(payload, pos) {
            Some(t) => t,
            None => {
                return None;
            },
        };
        if tag.0 % 8 != 2 {
            return None;
        }
        let pos2 = pos + tag.1;
        proof {
            assert(payload@.skip(pos2 as int) =~= s.skip(tag.1 as int));
        }
        let l = match read_uvarint(payload, pos2) {
            Some(t) => t,
            None => {
                return None;
            },
        };
        let pos3 = pos2 + l.1;
        let rem = payload.len() - pos3;
        if l.0 > rem as u64 {
            return None;
        }
        let len = l.0 as usize;
        let data = copy_range(payload, pos3, pos3 + len);
        proof {
            assert(data@ =~= s.subrange(tag.1 + l.1, tag.1 + l.1 + l.0 as int));
            assert(payload@.skip(pos3 + len as int) =~= s.skip(tag.1 + l.1 + l.0 as int));
        }
        let ghost dv = data@;
        let fnum = tag.0 / 8;
        if fnum == FIELD_PUBLIC_KEY {
            acc.public_key = data;
        } else if fnum == FIELD_PROTOCOL_VERSION {
            acc.protocol_version = data;
        } else if fnum == FIELD_AGENT_VERSION {
            acc.agent_version = data;
        } else if fnum == FIELD_LISTEN_ADDRS {
            acc.listen_addrs.push(data);
        } else if fnum == FIELD_OBSERVED_ADDR {
            acc.observed_addr = data;
        } else if fnum == FIELD_PROTOCOLS {
            acc.protocols.push(data);
        }
        proof {
            assert(acc@ =~= upd_field(acc0, (tag.0 / 8) as nat, dv));
        }
        pos = pos3 + len;
    }
    assert(payload@.skip(pos as int) =~= Seq::<u8>::empty());
    Some(acc)
}

/// Law: a record decoded from the front of its own encoding updates the
/// message exactly as `upd_field` says, and decoding then goes on behind it.
proof fn lemma_enc_field_dec(f: nat, data: Seq<u8>, rest: Seq<u8>, acc: IdentifyV)
    requires
        8 * f + 2 < u64_bound(),
        data.len() < u64_bound(),
    ensures
        dec_msg_rec(enc_field(f, data) + rest, acc) == dec_msg_rec(rest, upd_field(acc, f, data)),
{
    let t = uvarint(8 * f + 2);
    let lv = uvarint(data.len());
    let s = enc_field(f, data) + rest;
    assert(s =~= t + (lv + (data + rest)));
    lemma_uvarint_round_trip(8 * f + 2, lv + (data + rest));
    assert(dec_uvarint(s) == Some((8 * f + 2, t.len())));
    assert((8 * f + 2) % 8 == 2) by (nonlinear_arith);
    assert((8 * f + 2) / 8 == f) by (nonlinear_arith);
    assert(s.skip(t.len() as int) =~= lv + (data + rest));
    lemma_uvarint_round_trip(data.len(), data + rest);
    assert(dec_uvarint(s.skip(t.len() as int)) == Some((data.len(), lv.len())));
    let start = t.len() + lv.len();
    assert(s.len() - t.len() - lv.len() == data.len() + rest.len());
    assert(s.subrange(start as int, start as int + data.len() as int) =~= data);
    assert(s.skip(start as int + data.len() as int) =~= rest);
    assert(dec_msg_rec(s, acc) == dec_msg_rec(rest, upd_field(acc, f, data)));
}

/// Law: a repeated field decoded from the front of its own encoding appends
/// its entries in order, and decoding then goes on behind it.
proof fn lemma_enc_rep_dec(f: nat, items: Seq<Seq<u8>>, rest: Seq<u8>, acc: IdentifyV)
    requires
        8 * f + 2 < u64_bound(),
        forall|i: int| 0 <= i < items.len() ==> (#[trigger] items[i]).len() < u64_bound(),
    ensures
        dec_msg_rec(enc_rep(f, items) + rest, acc) == dec_msg_rec(rest, upd_rep(acc, f, items)),
    decreases items.len(),
{
    if items.len() == 0 {
        assert(enc_rep(f, items) + rest =~= rest);
    } else {
        assert(enc_rep(f, items) + rest =~= enc_field(f, items[0]) + (enc_rep(f, items.skip(1))
            + rest));
        lemma_enc_field_dec(f, items[0], enc_rep(f, items.skip(1)) + rest, acc);
        lemma_enc_rep_dec(f, items.skip(1), rest, upd_field(acc, f, items[0]));
    }
}

/// Folding the listen address records over a message appends them in order.
proof fn lemma_upd_rep_listen(acc: IdentifyV, items: Seq<Seq<u8>>)
    ensures
        upd_rep(acc, 4, items) == (IdentifyV { listen_addrs: acc.listen_addrs + items, ..acc }),
    decreases items.len(),
{
    if items.len() == 0 {
        assert(acc.listen_addrs + items =~= acc.listen_addrs);
        assert(upd_rep(acc, 4, items) =~= (IdentifyV {
            listen_addrs: acc.listen_addrs + items,
            ..acc
        }));
    } else {
        lemma_upd_rep_listen(upd_field(acc, 4, items[0]), items.skip(1));
        assert(acc.listen_addrs.push(items[0]) + items.skip(1) =~= acc.listen_addrs + items);
        assert(upd_rep(acc, 4, items) =~= (IdentifyV {
            listen_addrs: acc.listen_addrs + items,
            ..acc
        }));
    }
}

/// Folding the protocol records over a message appends them in order.
proof fn lemma_upd_rep_protocols(acc: IdentifyV, items: Seq<Seq<u8>>)
    ensures
        upd_rep(acc, 6, items) == (IdentifyV { protocols: acc.protocols + items, ..acc }),
    decreases items.len(),
{
    if items.len() == 0 {
        assert(acc.protocols + items =~= acc.protocols);
        assert(upd_rep(acc, 6, items) =~= (IdentifyV { protocols: acc.protocols + items, ..acc }));
    } else {
        lemma_upd_rep_protocols(upd_field(acc, 6, items[0]), items.skip(1));
        assert(acc.protocols.push(items[0]) + items.skip(1) =~= acc.protocols + items);
        assert(upd_rep(acc, 6, items) =~= (IdentifyV { protocols: acc.protocols + items, ..acc }));
    }
}

/// Law: decoding an encoded message yields the message back, field for
/// field, with the order of the repeated fields preserved and empty fields
/// staying empty.
pub proof fn lemma_msg_round_trip(m: IdentifyV)
    requires
        msg_lens_ok(m),
    ensures
        dec_msg(enc_msg(m)) == Some(m),
{
    let e1 = enc_field(1, m.public_key);
    let e2 = enc_field(2, m.protocol_version);
    let e3 = enc_field(3, m.agent_version);
    let r4 = enc_rep(4, m.listen_addrs);
    let e5 = enc_field(5, m.observed_addr);
    let r6 = enc_rep(6, m.protocols);
    let s = enc_msg(m);
    let a0 = msg_empty();
    let a1 = upd_field(a0, 1, m.public_key);
    let a2 = upd_field(a1, 2, m.protocol_version);
    let a3 = upd_field(a2, 3, m.agent_version);
    let a4 = upd_rep(a3, 4, m.listen_addrs);
    let a5 = upd_field(a4, 5, m.observed_addr);
    let a6 = upd_rep(a5, 6, m.protocols);
    assert(s =~= e1 + (e2 + (e3 + (r4 + (e5 + r6)))));
    lemma_enc_field_dec(1, m.public_key, e2 + (e3 + (r4 + (e5 + r6))), a0);
    lemma_enc_field_dec(2, m.protocol_version, e3 + (r4 + (e5 + r6)), a1);
    lemma_enc_field_dec(3, m.agent_version, r4 + (e5 + r6), a2);
    lemma_enc_rep_dec(4, m.listen_addrs, e5 + r6, a3);
    lemma_enc_field_dec(5, m.observed_addr, r6, a4);
    assert(r6 =~= r6 + Seq::<u8>::empty());
    lemma_enc_rep_dec(6, m.protocols, Seq::empty(), a5);
    lemma_upd_rep_listen(a3, m.listen_addrs);
    lemma_upd_rep_protocols(a5, m.protocols);
    assert(Seq::<Seq<u8>>::empty() + m.listen_addrs =~= m.listen_addrs);
    assert(Seq::<Seq<u8>>::empty() + m.protocols =~= m.protocols);
    assert(a6 =~= m);
    assert(dec_msg_rec(Seq::empty(), a6) == Some(a6));
}

} // verus!
