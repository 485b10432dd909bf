use vstd::prelude::*;

verus! {

use crate::varint::{
    dec_uvarint,
    lemma_uvarint_round_trip,
    read_uvarint,
    u64_bound,
    uvarint,
    write_uvarint,
};

/// One frame on the wire: the payload's byte length as a varint, then
/// exactly that many payload bytes.
pub open spec fn frame(payload: Seq<u8>) -> Seq<u8> {
    uvarint(payload.len()) + payload
}

/// What reading one frame from the front of `s` yields: the payload and the
/// number of bytes consumed, or nothing while no full frame has arrived.
pub open spec fn spec_read_frame(s: Seq<u8>) -> Option<(Seq<u8>, nat)> {
    match dec_uvarint(s) {
        None => None,
        Some(l) => if l.0 as int > s.len() - l.1 {
            None
        } else {
            Some((s.subrange(l.1 as int, l.1 + l.0 as int), l.1 + l.0))
        },
    }
}

/// Appends one frame holding `payload` to `out`.
pub fn write_frame(out: &mut Vec<u8>, payload: &Vec<u8>)
    ensures
        final(out)@ == old(out)@ + frame(payload@),
{
    write_uvarint(out, payload.len() as u64);
    let mut i: usize = 0;
    assert(out@ =~= old(out)@ + uvarint(payload@.len()) + payload@.take(0));
    while i < payload.len()
        invariant
            i <= payload.len(),
            out@ == old(out)@ + uvarint(payload@.len()) + payload@.take(i as int),
        decreases payload.len() - i,
    {
        out.push(payload[i]);
        i = i + 1;
        assert(out@ =~= old(out)@ + uvarint(payload@.len()) + payload@.take(i as int));
    }
    assert(out@ =~= old(out)@ + frame(payload@));
}

/// Reads one frame out of `buf` starting at `pos`: the payload and the
/// position just past the frame. Exactly the first frame is consumed; any
/// bytes behind it are not touched.
pub fn read_frame(buf: &Vec<u8>, pos: usize) -> (r: Option<(Vec<u8>, usize)>)
    requires
        pos <= buf.len(),
    ensures
        match spec_read_frame(buf@.skip(pos as int)) {
            Some(p) => r matches Some(q) && q.0@ == p.0 && q.1 as nat == pos + p.1 && q.1
                <= buf.len(),
            None => r is None,
        },
{
    let l = match read_uvarint(buf, pos) {
        Some(t) => t,
        None => {
            return None;
        },
    };
    let pos2 = pos + l.1;
    let rem = buf.len() - pos2;
    if l.0 > rem as u64 {
        return None;
    }
    let len = l.0 as usize;
    let ghost s = buf@.skip(pos as int);
    let mut payload: Vec<u8> = Vec::new();
    let mut i: usize = pos2;
    assert(payload@ =~= buf@.subrange(pos2 as int, pos2 as int));
    while i < pos2 + len
        invariant
            pos2 <= i <= pos2 + len <= buf.len(),
            payload@ == buf@.subrange(pos2 as int, i as int),
        decreases pos2 + len - i,
    {
        payload.push(buf[i]);
        i = i + 1;
        assert(payload@ =~= buf@.subrange(pos2 as int, i as int));
    }
    proof {
        assert(payload@ =~= s.subrange(l.1 as int, l.1 as int + l.0 as int));
    }
    Some((payload, pos2 + len))
}

/// Law: reading from a buffer that starts with one whole frame yields that
/// frame's payload and consumes exactly the frame, whatever follows it —
/// a second frame behind the first is never touched.
pub proof fn lemma_frame_round_trip(payload: Seq<u8>, rest: Seq<u8>)
    requires
        payload.len() < u64_bound(),
    ensures
        spec_read_frame(frame(payload) + rest) == Some((payload, frame(payload).len())),
{
    let s = frame(payload) + rest;
    let lv = uvarint(payload.len());
    assert(s =~= lv + (payload + rest));
    lemma_uvarint_round_trip(payload.len(), payload + rest);
    assert(dec_uvarint(s) == Some((payload.len(), lv.len())));
    assert(s.subrange(lv.len() as int, lv.len() + payload.len() as int) =~= payload);
}

} // verus!
