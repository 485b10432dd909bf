use vstd::prelude::*;

verus! {

use vstd::string::StrSliceExecFns;
use vstd::string::StringSliceAdditionalSpecFns;
use vstd::utf8::{decode_utf8, encode_utf8, encode_utf8_decode_utf8, encode_utf8_valid_utf8,
    valid_utf8};
use crate::addr::{addr_views, is_multiaddr, Addr};
use crate::wire;
use crate::wire::{bytes_views, dec_msg, enc_msg, lemma_msg_round_trip, msg_lens_ok, IdentifyV};

/// How the identify exchange fails.
#[derive(Clone, Copy, Debug, PartialEq, Eq, Structural)]
pub enum IdentifyError {
    /// The stream closed before any frame carrying the peer's identity
    /// arrived.
    StreamClosedBeforeInfo,
    /// The frame's payload does not parse as an identify message: its
    /// structure is broken or a string field is not valid UTF-8.
    MalformedMessage,
    /// A listen address or the observed address inside an otherwise
    /// well-formed message is not a valid address encoding.
    MalformedAddress,
}

/// Information one peer discloses to the other.
#[derive(Debug, Clone)]
pub struct IdentifyInfo {
    /// Public key of the node, in an external encoding this protocol passes
    /// through untouched.
    pub public_key: Vec<u8>,
    /// Version of the "global" protocol family.
    pub protocol_version: String,
    /// Name and version of the client implementation; advisory only.
    pub agent_version: String,
    /// Addresses the node listens on, in order, duplicates kept.
    pub listen_addrs: Vec<Addr>,
    /// Names of the sub-protocols the node supports, in order, duplicates
    /// kept.
    pub protocols: Vec<String>,
}

/// The mathematical value of an identity record.
#[verifier::ext_equal]
pub struct IdentifyInfoV {
    pub public_key: Seq<u8>,
    pub protocol_version: Seq<char>,
    pub agent_version: Seq<char>,
    pub listen_addrs: Seq<Seq<u8>>,
    pub protocols: Seq<Seq<char>>,
}

/// The character sequences held by a sequence of strings.
pub open spec fn string_views(items: Seq<String>) -> Seq<Seq<char>> {
    Seq::new(items.len(), |i: int| items[i]@)
}

impl View for IdentifyInfo {
    type V = IdentifyInfoV;

    open spec fn view(&self) -> IdentifyInfoV {
        IdentifyInfoV {
            public_key: self.public_key@,
            protocol_version: self.protocol_version@,
            agent_version: self.agent_version@,
            listen_addrs: addr_views(self.listen_addrs@),
            protocols: string_views(self.protocols@),
        }
    }
}

/// Every listen address of the record holds a well-formed encoding.
pub open spec fn info_addrs_wf(info: IdentifyInfoV) -> bool {
    forall|i: int|
        0 <= i < info.listen_addrs.len() ==> is_multiaddr(#[trigger] info.listen_addrs[i])
}

/// The wire message that carries a record and an observed address: strings
/// go out as their UTF-8 bytes, addresses as their binary encodings.
pub open spec fn msg_of(info: IdentifyInfoV, observed_addr: Seq<u8>) -> IdentifyV {
    IdentifyV {
        public_key: info.public_key,
        protocol_version: encode_utf8(info.protocol_version),
        agent_version: encode_utf8(info.agent_version),
        listen_addrs: info.listen_addrs,
        observed_addr: observed_addr,
        protocols: Seq::new(info.protocols.len(), |i: int| encode_utf8(info.protocols[i])),
    }
}

/// The three string fields of a wire message are valid UTF-8.
pub open spec fn msg_strings_ok(m: IdentifyV) -> bool {
    &&& valid_utf8(m.protocol_version)
    &&& valid_utf8(m.agent_version)
    &&& forall|i: int| 0 <= i < m.protocols.len() ==> valid_utf8(#[trigger] m.protocols[i])
}

/// The address fields of a wire message hold well-formed encodings.
pub open spec fn msg_addrs_ok(m: IdentifyV) -> bool {
    &&& forall|i: int|
        0 <= i < m.listen_addrs.len() ==> is_multiaddr(#[trigger] m.listen_addrs[i])
    &&& is_multiaddr(m.observed_addr)
}

/// The record a well-formed wire message carries.
pub open spec fn info_of(m: IdentifyV) -> IdentifyInfoV {
    IdentifyInfoV {
        public_key: m.public_key,
        protocol_version: decode_utf8(m.protocol_version),
        agent_version: decode_utf8(m.agent_version),
        listen_addrs: m.listen_addrs,
        protocols: Seq::new(m.protocols.len(), |i: int| decode_utf8(m.protocols[i])),
    }
}

/// What parsing a frame payload yields: the disclosed record and the
/// observed address, or the one error that classifies the failure. A
/// structurally broken payload or one with a non-UTF-8 string field is a
/// malformed message; one whose listen addresses or observed address the
/// address library rejects is a malformed address; no partial record is
/// ever produced.
pub open spec fn spec_parse(payload: Seq<u8>) -> Result<(IdentifyInfoV, Seq<u8>), IdentifyError> {
    match dec_msg(payload) {
        None => Err(IdentifyError::MalformedMessage),
        Some(m) => if !msg_strings_ok(m) {
            Err(IdentifyError::MalformedMessage)
        } else if !msg_addrs_ok(m) {
            Err(IdentifyError::MalformedAddress)
        } else {
            Ok((info_of(m), m.observed_addr))
        },
    }
}

/// Relies on `String::from_utf8`: it succeeds exactly on valid UTF-8 and
/// returns the string those bytes encode.
#[verifier::external_body]
fn string_from_utf8(b: Vec<u8>) -> (r: Option<String>)
    ensures
        r is Some <==> valid_utf8(b@),
        r matches Some(s) ==> s@ == decode_utf8(b@),
{
    String::from_utf8(b).ok()
}

/// Copies a byte vector.
fn clone_bytes(data: &Vec<u8>) -> (r: Vec<u8>)
    ensures
        r@ == data@,
{
    let mut r: Vec<u8> = Vec::new();
    let mut i: usize = 0;
    assert(r@ =~= data@.take(0));
    while i < data.len()
        invariant
            i <= data.len(),
            r@ == data@.take(i as int),
        decreases data.len() - i,
    {
        r.push(data[i]);
        i = i + 1;
        assert(r@ =~= data@.take(i as int));
    }
    assert(data@.take(data@.len() as int) =~= data@);
    r
}

/// Serializes a record and an observed address into one frame payload,
/// exactly the bytes `enc_msg` of `msg_of` describes.
pub fn encode_identify(info: &IdentifyInfo, observed_addr: &Addr) -> (r: Vec<u8>)
    ensures
        r@ == enc_msg(msg_of(info@, observed_addr@)),
{
    let ghost target = msg_of(info@, observed_addr@);
    let mut listen: Vec<Vec<u8>> = Vec::new();
    let mut i: usize = 0;
    assert(bytes_views(listen@) =~= target.listen_addrs.take(0));
    while i < info.listen_addrs.len()
        invariant
            i <= info.listen_addrs.len(),
            target == msg_of(info@, observed_addr@),
            listen@.len() == i,
            bytes_views(listen@) == target.listen_addrs.take(i as int),
        decreases info.listen_addrs.len() - i,
    {
        assert(target.listen_addrs[i as int] == info.listen_addrs@[i as int].bytes@);
        listen.push(clone_bytes(&info.listen_addrs[i].bytes));
        assert(listen@[i as int]@ == target.listen_addrs[i as int]);
        i = i + 1;
        assert(bytes_views(listen@) =~= target.listen_addrs.take(i as int));
    }
    assert(target.listen_addrs.take(target.listen_addrs.len() as int) =~= target.listen_addrs);
    let mut protos: Vec<Vec<u8>> = Vec::new();
    let mut j: usize = 0;
    assert(bytes_views(protos@) =~= target.protocols.take(0));
    while j < info.protocols.len()
        invariant
            j <= info.protocols.len(),
            target == msg_of(info@, observed_addr@),
            protos@.len() == j,
            bytes_views(protos@) == target.protocols.take(j as int),
        decreases info.protocols.len() - j,
    {
        assert(target.protocols[j as int] == encode_utf8(info.protocols@[j as int]@));
        protos.push(info.protocols[j].as_str().as_bytes_vec());
        assert(protos@[j as int]@ == target.protocols[j as int]);
        j = j + 1;
        assert(bytes_views(protos@) =~= target.protocols.take(j as int));
    }
    assert(target.protocols.take(target.protocols.len() as int) =~= target.protocols);
    let msg = wire::Identify {
        public_key: clone_bytes(&info.public_key),
        protocol_version: info.protocol_version.as_str().as_bytes_vec(),
        agent_version: info.agent_version.as_str().as_bytes_vec(),
        listen_addrs: listen,
        observed_addr: clone_bytes(&observed_addr.bytes),
        protocols: protos,
    };
    assert(msg@ =~= target);
    wire::encode_message(&msg)
}

/// Parses one frame payload into the peer's record and the address it
/// observed, exactly as `spec_parse` says: the first listen address the
/// address library rejects aborts the whole parse, and no partial record
/// ever comes out.
pub fn parse_proto_msg(payload: &Vec<u8>) -> (r: Result<(IdentifyInfo, Addr), IdentifyError>)
    ensures
        match r {
            Ok(p) => spec_parse(payload@) == Ok::<(IdentifyInfoV, Seq<u8>), IdentifyError>(
                (p.0@, p.1@),
            ) && info_addrs_wf(p.0@) && p.1.wf(),
            Err(e) => spec_parse(payload@) == Err::<(IdentifyInfoV, Seq<u8>), IdentifyError>(e),
        },
{
    let msg = match wire::decode_message(payload) {
        Some(m) => m,
        None => {
            return Err(IdentifyError::MalformedMessage);
        },
    };
    let ghost mv = msg@;
    let wire::Identify {
        public_key,
        protocol_version,
        agent_version,
        listen_addrs,
        observed_addr,
        protocols,
    } = msg;
    let pv = match string_from_utf8(protocol_version) {
        Some(s) => s,
        None => {
            return Err(IdentifyError::MalformedMessage);
        },
    };
    let av = match string_from_utf8(agent_version) {
        Some(s) => s,
        None => {
            return Err(IdentifyError::MalformedMessage);
        },
    };
    let mut protos: Vec<String> = Vec::new();
    let mut i: usize = 0;
    assert(string_views(protos@) =~= Seq::new(0, |k: int| decode_utf8(mv.protocols[k])));
    while i < protocols.len()
        invariant
            i <= protocols.len(),
            dec_msg(payload@) == Some(mv),
            bytes_views(protocols@) == mv.protocols,
            pv@ == decode_utf8(mv.protocol_version),
            av@ == decode_utf8(mv.agent_version),
            valid_utf8(mv.protocol_version),
            valid_utf8(mv.agent_version),
            forall|k: int| 0 <= k < i ==> valid_utf8(#[trigger] mv.protocols[k]),
            protos@.len() == i,
            string_views(protos@) == Seq::new(i as nat, |k: int| decode_utf8(mv.protocols[k])),
        decreases protocols.len() - i,
    {
        assert(mv.protocols[i as int] == protocols@[i as int]@);
        let b = clone_bytes(&protocols[i]);
        let ghost protos0 = protos@;
        match string_from_utf8(b) {
            Some(s) => {
                protos.push(s);
            },
            None => {
                assert(!valid_utf8(mv.protocols[i as int]));
                assert(!msg_strings_ok(mv));
                return Err(IdentifyError::MalformedMessage);
            },
        }
        assert(protos@[i as int]@ == decode_utf8(mv.protocols[i as int]));
        assert forall|k: int| 0 <= k < i implies protos@[k]@ == decode_utf8(
            mv.protocols[k],
        ) by {
            assert(protos@[k] == protos0[k]);
            assert(string_views(protos0)[k] == protos0[k]@);
        }
        i = i + 1;
        assert(string_views(protos@) =~= Seq::new(i as nat, |k: int| decode_utf8(mv.protocols[k])));
    }
    assert(msg_strings_ok(mv));
    let mut addrs: Vec<Addr> = Vec::new();
    let mut j: usize = 0;
    assert(addr_views(addrs@) =~= mv.listen_addrs.take(0));
    while j < listen_addrs.len()
        invariant
            j <= listen_addrs.len(),
            dec_msg(payload@) == Some(mv),
            bytes_views(listen_addrs@) == mv.listen_addrs,
            msg_strings_ok(mv),
            pv@ == decode_utf8(mv.protocol_version),
            av@ == decode_utf8(mv.agent_version),
            string_views(protos@) == Seq::new(mv.protocols.len(), |k: int| decode_utf8(mv.protocols[k])),
            forall|k: int| 0 <= k < j ==> is_multiaddr(#[trigger] mv.listen_addrs[k]),
            addrs@.len() == j,
            addr_views(addrs@) == mv.listen_addrs.take(j as int),
            forall|k: int| 0 <= k < addrs@.len() ==> (#[trigger] addrs@[k]).wf(),
        decreases listen_addrs.len() - j,
    {
        assert(mv.listen_addrs[j as int] == listen_addrs@[j as int]@);
        let b = clone_bytes(&listen_addrs[j]);
        match Addr::from_bytes(b) {
            Some(a) => {
                addrs.push(a);
            },
            None => {
                assert(!is_multiaddr(mv.listen_addrs[j as int]));
                assert(!msg_addrs_ok(mv));
                return Err(IdentifyError::MalformedAddress);
            },
        }
        assert(addrs@[j as int]@ == mv.listen_addrs[j as int]);
        j = j + 1;
        assert(addr_views(addrs@) =~= mv.listen_addrs.take(j as int));
    }
    assert(mv.listen_addrs.take(mv.listen_addrs.len() as int) =~= mv.listen_addrs);
    let observed = match Addr::from_bytes(observed_addr) {
        Some(a) => a,
        None => {
            return Err(IdentifyError::MalformedAddress);
        },
    };
    assert(msg_addrs_ok(mv));
    let info = IdentifyInfo {
        public_key,
        protocol_version: pv,
        agent_version: av,
        listen_addrs: addrs,
        protocols: protos,
    };
    assert(info@ =~= info_of(mv));
    Ok((info, observed))
}

/// What the round-trip law asks of a record and an observed address: every
/// address holds a well-formed encoding, and each field is short enough for
/// its length to fit behind a varint prefix — a machine limit no real record
/// reaches.
pub open spec fn round_trip_pre(info: IdentifyInfoV, observed_addr: Seq<u8>) -> bool {
    &&& info_addrs_wf(info)
    &&& is_multiaddr(observed_addr)
    &&& msg_lens_ok(msg_of(info, observed_addr))
}

/// Law: parsing the encoding of any record and observed address yields them
/// back, field for field, preserving the order of both lists and keeping
/// empty lists empty.
pub proof fn lemma_round_trip(info: IdentifyInfoV, observed_addr: Seq<u8>)
    ensures
        round_trip_pre(info, observed_addr) ==> spec_parse(enc_msg(msg_of(info, observed_addr)))
            == Ok::<(IdentifyInfoV, Seq<u8>), IdentifyError>((info, observed_addr)),
{
    if round_trip_pre(info, observed_addr) {
        let m = msg_of(info, observed_addr);
        lemma_msg_round_trip(m);
        encode_utf8_valid_utf8(info.protocol_version);
        encode_utf8_valid_utf8(info.agent_version);
        assert forall|i: int| 0 <= i < m.protocols.len() implies valid_utf8(
            #[trigger] m.protocols[i],
        ) by {
            encode_utf8_valid_utf8(info.protocols[i]);
        }
        encode_utf8_decode_utf8(info.protocol_version);
        encode_utf8_decode_utf8(info.agent_version);
        assert forall|i: int| 0 <= i < m.protocols.len() implies decode_utf8(m.protocols[i])
            == info.protocols[i] by {
            encode_utf8_decode_utf8(info.protocols[i]);
        }
        assert(info_of(m) =~= info);
    }
}

/// Law: a record whose listen address and protocol lists are empty parses
/// back from its encoding with both lists empty — an empty list is encoded
/// as no records at all, never as anything that decodes to a value.
pub proof fn lemma_empty_collections_round_trip(info: IdentifyInfoV, observed_addr: Seq<u8>)
    ensures
        info.listen_addrs.len() == 0 && info.protocols.len() == 0 && round_trip_pre(
            info,
            observed_addr,
        ) ==> (spec_parse(enc_msg(msg_of(info, observed_addr))) matches Ok(p) && p.0.listen_addrs
            =~= Seq::<Seq<u8>>::empty() && p.0.protocols =~= Seq::<Seq<char>>::empty() && p.0
            == info && p.1 == observed_addr),
{
    lemma_round_trip(info, observed_addr);
}

} // verus!
