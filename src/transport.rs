//! Transport profiles: the connection state and the send decisions of each;
//! the bytes on the wire are moved by the caller.

use vstd::prelude::*;
use std::collections::VecDeque;
use crate::envelope::{Envelope, EnvelopeView};
use crate::error::{AriaError, AriaResult};

verus! {

pub const MAX_RECONNECT_DELAY_SECS: u64 = 60;

/// The wait before reconnect attempt `attempt` (from 0): `2^attempt`
/// seconds, capped at 60.
pub open spec fn reconnect_delay_spec(attempt: nat) -> nat {
    if vstd::arithmetic::power2::pow2(attempt) < MAX_RECONNECT_DELAY_SECS {
        vstd::arithmetic::power2::pow2(attempt)
    } else {
        MAX_RECONNECT_DELAY_SECS as nat
    }
}

/// Seconds to wait before reconnect attempt `attempt` of a live link.
pub fn reconnect_delay_secs(attempt: u32) -> (r: u64)
    ensures
        r == reconnect_delay_spec(attempt as nat),
{
    let mut d: u64 = 1;
    let mut i: u32 = 0;
    proof {
        vstd::arithmetic::power::lemma_pow0(2);
    }
    while i < attempt
        invariant
            i <= attempt,
            d == reconnect_delay_spec(i as nat),
        decreases attempt - i,
    {
        proof {
            vstd::arithmetic::power2::lemma_pow2_unfold((i + 1) as nat);
        }
        d = if d >= 30 {
            MAX_RECONNECT_DELAY_SECS
        } else {
            2 * d
        };
        i = i + 1;
    }
    d
}

/// Connection state of a live link (datagram or pub/sub profile).
pub struct LinkState {
    endpoint: Option<String>,
}

impl LinkState {
    pub closed spec fn endpoint_spec(&self) -> Option<Seq<char>> {
        match self.endpoint {
            Some(s) => Some(s@),
            None => None,
        }
    }

    fn new() -> (r: Self)
        ensures
            r.endpoint_spec() is None,
    {
        LinkState { endpoint: None }
    }

    fn connect(&mut self, endpoint: &str)
        ensures
            final(self).endpoint_spec() == Some(endpoint@),
    {
        self.endpoint = Some(endpoint.to_owned());
    }

    fn disconnect(&mut self)
        ensures
            final(self).endpoint_spec() is None,
    {
        self.endpoint = None;
    }

    /// An envelope may leave only over a connected link: it is handed back
    /// for sending; before `connect` the send is `InvalidState`.
    fn send(&self, envelope: Envelope) -> (r: AriaResult<Envelope>)
        ensures
            self.endpoint_spec() is Some ==> (r matches Ok(e) && e@ == envelope@),
            self.endpoint_spec() is None ==> (r matches Err(e) && e is InvalidState),
    {
        if self.endpoint.is_some() {
            Ok(envelope)
        } else {
            Err(AriaError::InvalidState("send before connect".to_string()))
        }
    }
}

/// Low-latency datagram profile.
pub struct QuicTransport {
    link: LinkState,
}

/// Light publish/subscribe profile.
pub struct MqttSnTransport {
    link: LinkState,
}

impl QuicTransport {
    pub closed spec fn endpoint(&self) -> Option<Seq<char>> {
        self.link.endpoint_spec()
    }

    pub fn new() -> (r: Self)
        ensures
            r.endpoint() is None,
    {
        QuicTransport { link: LinkState::new() }
    }

    pub fn connect(&mut self, endpoint: &str) -> (r: AriaResult<()>)
        ensures
            r is Ok,
            final(self).endpoint() == Some(endpoint@),
    {
        self.link.connect(endpoint);
        Ok(())
    }

    pub fn disconnect(&mut self) -> (r: AriaResult<()>)
        ensures
            r is Ok,
            final(self).endpoint() is None,
    {
        self.link.disconnect();
        Ok(())
    }

    /// The envelope to put on the wire, or `InvalidState` before `connect`.
    pub fn send(&mut self, envelope: Envelope) -> (r: AriaResult<Envelope>)
        ensures
            final(self).endpoint() == old(self).endpoint(),
            old(self).endpoint() is Some ==> (r matches Ok(e) && e@ == envelope@),
            old(self).endpoint() is None ==> (r matches Err(e) && e is InvalidState),
    {
        self.link.send(envelope)
    }

    pub fn name(&self) -> (r: &'static str)
        ensures
            r@ == "QUIC"@,
    {
        proof {
            reveal_strlit("QUIC");
        }
        "QUIC"
    }
}

impl MqttSnTransport {
    pub closed spec fn endpoint(&self) -> Option<Seq<char>> {
        self.link.endpoint_spec()
    }

    pub fn new() -> (r: Self)
        ensures
            r.endpoint() is None,
    {
        MqttSnTransport { link: LinkState::new() }
    }

    pub fn connect(&mut self, endpoint: &str) -> (r: AriaResult<()>)
        ensures
            r is Ok,
            final(self).endpoint() == Some(endpoint@),
    {
        self.link.connect(endpoint);
        Ok(())
    }

    pub fn disconnect(&mut self) -> (r: AriaResult<()>)
        ensures
            r is Ok,
            final(self).endpoint() is None,
    {
        self.link.disconnect();
        Ok(())
    }

    /// The envelope to publish, or `InvalidState` before `connect`.
    pub fn send(&mut self, envelope: Envelope) -> (r: AriaResult<Envelope>)
        ensures
            final(self).endpoint() == old(self).endpoint(),
            old(self).endpoint() is Some ==> (r matches Ok(e) && e@ == envelope@),
            old(self).endpoint() is None ==> (r matches Err(e) && e is InvalidState),
    {
        self.link.send(envelope)
    }

    pub fn name(&self) -> (r: &'static str)
        ensures
            r@ == "MQTT-SN"@,
    {
        proof {
            reveal_strlit("MQTT-SN");
        }
        "MQTT-SN"
    }
}

/// Store-and-forward profile: every envelope is spooled, and the spool is
/// kept across disconnects until a connected link drains it in order.
pub struct DtnTransport {
    store: VecDeque<Envelope>,
    connected: bool,
}

impl DtnTransport {
    pub closed spec fn spool(&self) -> Seq<EnvelopeView> {
        self.store@.map_values(|e: Envelope| e@)
    }

    pub closed spec fn is_connected(&self) -> bool {
        self.connected
    }

    pub fn new() -> (r: Self)
        ensures
            r.spool() == Seq::<EnvelopeView>::empty(),
            !r.is_connected(),
    {
        let r = DtnTransport { store: VecDeque::new(), connected: false };
        assert(r.spool() =~= Seq::<EnvelopeView>::empty());
        r
    }

    pub fn store_len(&self) -> (r: usize)
        ensures
            r == self.spool().len(),
    {
        self.store.len()
    }

    /// Spools `envelope`; never fails.
    pub fn send(&mut self, envelope: Envelope) -> (r: AriaResult<()>)
        ensures
            r is Ok,
            final(self).spool() == old(self).spool().push(envelope@),
            final(self).is_connected() == old(self).is_connected(),
    {
        let ghost e = envelope@;
        self.store.push_back(envelope);
        assert(self.spool() =~= old(self).spool().push(e));
        Ok(())
    }

    pub fn connect(&mut self, endpoint: &str) -> (r: AriaResult<()>)
        ensures
            r is Ok,
            final(self).is_connected(),
            final(self).spool() == old(self).spool(),
    {
        self.connected = true;
        Ok(())
    }

    pub fn disconnect(&mut self) -> (r: AriaResult<()>)
        ensures
            r is Ok,
            !final(self).is_connected(),
            final(self).spool() == old(self).spool(),
    {
        self.connected = false;
        Ok(())
    }

    /// Over a connected link, hands out the whole spool in send order and
    /// empties it; while disconnected, hands out nothing and keeps it.
    pub fn drain(&mut self) -> (r: Vec<Envelope>)
        ensures
            final(self).is_connected() == old(self).is_connected(),
            old(self).is_connected() ==> r@.map_values(|e: Envelope| e@) == old(self).spool()
                && final(self).spool() == Seq::<EnvelopeView>::empty(),
            !old(self).is_connected() ==> r@.len() == 0 && final(self).spool() == old(self).spool(),
    {
        let mut out: Vec<Envelope> = Vec::new();
        if !self.connected {
            return out;
        }
        let ghost all = self.spool();
        while self.store.len() > 0
            invariant
                self.connected,
                out@.map_values(|e: Envelope| e@) + self.spool() == all,
            decreases self.store@.len(),
        {
            let ghost before = self.spool();
            let ghost ob = out@.map_values(|e: Envelope| e@);
            match self.store.pop_front() {
                Some(e) => {
                    out.push(e);
                    assert(self.spool() =~= before.drop_first());
                    assert(out@.map_values(|e: Envelope| e@) =~= ob.push(before[0]));
                    assert(ob.push(before[0]) + before.drop_first() =~= ob + before);
                },
                None => {},
            }
        }
        assert(self.spool() =~= Seq::<EnvelopeView>::empty());
        assert(out@.map_values(|e: Envelope| e@) + self.spool() =~= out@.map_values(|e: Envelope| e@));
        out
    }

    pub fn name(&self) -> (r: &'static str)
        ensures
            r@ == "DTN"@,
    {
        proof {
            reveal_strlit("DTN");
        }
        "DTN"
    }
}

} // verus!
