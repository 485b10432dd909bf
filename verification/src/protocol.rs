use vstd::prelude::*;

verus! {

use crate::addr::Addr;
use crate::codec::{
    encode_identify,
    msg_of,
    parse_proto_msg,
    spec_parse,
    IdentifyError,
    IdentifyInfo,
};
use crate::frame::frame;
use crate::wire::enc_msg;

/// The two asymmetric roles of one connection upgrade: the dialer initiates
/// and receives the peer's identity, the listener responds and discloses
/// its own.
#[derive(Clone, Copy, Debug, PartialEq, Eq, Structural)]
pub enum Endpoint {
    Dialer,
    Listener,
}

/// Configuration for an upgrade to the identify protocol.
#[derive(Debug, Clone)]
pub struct IdentifyProtocolConfig;

/// The spec-level protocol token this upgrade is negotiated under.
pub open spec fn protocol_id() -> Seq<char> {
    "/ipfs/id/1.0.0"@
}

/// A one-shot capability to answer the initiator: it produces the single
/// frame carrying the responder's identity. Consuming `send` makes a second
/// send impossible by construction, not by a runtime check.
#[derive(Debug)]
pub struct IdentifySender {
    one_shot: (),
}

/// What one upgrade invocation commits to: exactly one of the two shapes,
/// chosen by role at construction and never re-selected.
#[derive(Debug)]
pub enum IdentifyOutput {
    /// The remote's identity, obtained as the dialer, along with the address
    /// the remote observed for us.
    RemoteInfo { info: IdentifyInfo, observed_addr: Addr },
    /// The capability to send our identity to the remote, produced as the
    /// listener, along with the remote's observed address as supplied by the
    /// caller.
    Sender { sender: IdentifySender, observed_addr: Addr },
}

/// The dialer's side of an upgrade while it waits for the one inbound
/// frame. Feeding it the first stream event consumes it, so no second frame
/// is ever processed.
pub struct InitiatorFlow {
    one_shot: (),
}

/// What the upgrade yields at once: the dialer must first await one frame,
/// the listener is done without any network traffic.
pub enum Upgrade {
    /// Await the first inbound frame, then hand it to the flow.
    AwaitFrame(InitiatorFlow),
    /// Finished immediately: the listener's sender, ready before any
    /// network traffic.
    Ready(IdentifyOutput),
}

impl IdentifyProtocolConfig {
    /// The protocol tokens this upgrade can be negotiated under: exactly the
    /// one fixed token, `/ipfs/id/1.0.0`.
    pub fn protocol_names(&self) -> (r: Vec<String>)
        ensures
            r@.len() == 1,
            r@[0]@ == protocol_id(),
    {
        let mut names: Vec<String> = Vec::new();
        names.push("/ipfs/id/1.0.0".to_owned());
        names
    }

    /// Branches on the connection role. A dialer gets a flow that awaits
    /// exactly one frame. A listener gets a finished `Sender` output
    /// carrying the supplied observed address: no network traffic happens,
    /// and none can, before the caller invokes the sender.
    pub fn upgrade(self, ty: Endpoint, observed_addr: Addr) -> (r: Upgrade)
        ensures
            ty is Dialer ==> r is AwaitFrame,
            ty is Listener ==> (r matches Upgrade::Ready(
                IdentifyOutput::Sender { sender: _, observed_addr: oa },
            ) && oa@ == observed_addr@),
    {
        match ty {
            Endpoint::Dialer => Upgrade::AwaitFrame(InitiatorFlow { one_shot: () }),
            Endpoint::Listener => Upgrade::Ready(
                IdentifyOutput::Sender {
                    sender: IdentifySender { one_shot: () },
                    observed_addr,
                },
            ),
        }
    }
}

impl InitiatorFlow {
    /// Consumes the flow with the first event the framed stream yielded:
    /// no frame before end of stream means the exchange was cut short, one
    /// frame is parsed into the remote's identity. Only this first frame is
    /// ever consumed; whether more frames wait behind it cannot matter.
    pub fn on_first_frame(self, first_frame: Option<Vec<u8>>) -> (r: Result<
        IdentifyOutput,
        IdentifyError,
    >)
        ensures
            match first_frame {
                None => r == Err::<IdentifyOutput, IdentifyError>(
                    IdentifyError::StreamClosedBeforeInfo,
                ),
                Some(payload) => match spec_parse(payload@) {
                    Ok(p) => r matches Ok(IdentifyOutput::RemoteInfo { info, observed_addr })
                        && info@ == p.0 && observed_addr@ == p.1,
                    Err(e) => r == Err::<IdentifyOutput, IdentifyError>(e),
                },
            },
    {
        match first_frame {
            None => Err(IdentifyError::StreamClosedBeforeInfo),
            Some(payload) => match parse_proto_msg(&payload) {
                Ok(p) => Ok(IdentifyOutput::RemoteInfo { info: p.0, observed_addr: p.1 }),
                Err(e) => Err(e),
            },
        }
    }
}

impl IdentifySender {
    /// Consumes the sender and produces the one frame that answers the
    /// initiator: the encoded record and observed address behind a varint
    /// length prefix. The capability is gone afterwards, so exactly one
    /// frame is ever produced through a given sender.
    pub fn send(self, info: IdentifyInfo, observed_addr: &Addr) -> (r: Vec<u8>)
        ensures
            r@ == frame(enc_msg(msg_of(info@, observed_addr@))),
    {
        let payload = encode_identify(&info, observed_addr);
        let mut out: Vec<u8> = Vec::new();
        crate::frame::write_frame(&mut out, &payload);
        assert(out@ =~= frame(enc_msg(msg_of(info@, observed_addr@))));
        out
    }
}

} // verus!
