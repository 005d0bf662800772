use vstd::prelude::*;
use vstd::string::{StrSliceExecFns, StringExecFns};
use crate::status::{decimal, decimal_text};

verus! {

/// How an accepted connection is served for its whole life.
#[derive(Debug, Clone, Copy, PartialEq, Eq, Structural)]
pub enum ConnectionMode {
    /// Bytes are copied to and from the backend unchanged.
    Relay,
    /// The proxy answers status and login itself.
    Responder,
}

pub open spec fn mode_of(relay: bool) -> ConnectionMode {
    if relay {
        ConnectionMode::Relay
    } else {
        ConnectionMode::Responder
    }
}

/// The relay flag after a control byte: zero selects the responder, any
/// other byte the relay.
pub open spec fn flag_after(b: u8) -> bool {
    b != 0
}

/// What the acceptor observes.
pub enum Event {
    /// A byte read from a control connection.
    Control(u8),
    /// A new client connection.
    Accept,
}

/// The relay flag and the modes given to the connections accepted so far.
pub struct ProxyModel {
    pub relay: bool,
    pub accepted: Seq<ConnectionMode>,
}

pub open spec fn event_step(m: ProxyModel, e: Event) -> ProxyModel {
    match e {
        Event::Control(b) => ProxyModel { relay: flag_after(b), accepted: m.accepted },
        Event::Accept => ProxyModel { relay: m.relay, accepted: m.accepted.push(mode_of(m.relay)) },
    }
}

pub open spec fn run(m: ProxyModel, events: Seq<Event>) -> ProxyModel
    decreases events.len(),
{
    if events.len() == 0 {
        m
    } else {
        event_step(run(m, events.drop_last()), events.last())
    }
}

/// The process-wide mode flag, read once for each accepted connection.
pub struct ModeState {
    relay: bool,
}

impl View for ModeState {
    type V = bool;

    closed spec fn view(&self) -> bool {
        self.relay
    }
}

impl ModeState {
    /// The proxy starts in relay mode.
    pub fn new() -> (r: ModeState)
        ensures
            r@,
    {
        ModeState { relay: true }
    }

    pub fn relay_enabled(&self) -> (r: bool)
        ensures
            r == self@,
    {
        self.relay
    }

    /// Applies one byte of the control channel.
    pub fn apply_control_byte(&mut self, b: u8)
        ensures
            final(self)@ == flag_after(b),
    {
        self.relay = b != 0;
    }

    /// Applies, in order, the bytes of one read of a control connection: the
    /// last one decides.
    pub fn apply_control_bytes(&mut self, data: &[u8])
        ensures
            data@.len() == 0 ==> final(self)@ == old(self)@,
            data@.len() > 0 ==> final(self)@ == flag_after(data@.last()),
    {
        let mut i: usize = 0;
        while i < data.len()
            invariant
                i <= data@.len(),
                i == 0 ==> self@ == old(self)@,
                i > 0 ==> self@ == flag_after(data@[i - 1]),
            decreases data@.len() - i,
        {
            self.apply_control_byte(data[i]);
            i = i + 1;
        }
    }

    /// The mode of a connection accepted now; it does not change afterwards.
    pub fn mode_for_new_connection(&self) -> (r: ConnectionMode)
        ensures
            r == mode_of(self@),
    {
        if self.relay {
            ConnectionMode::Relay
        } else {
            ConnectionMode::Responder
        }
    }
}

/// A control byte changes the mode of connections accepted after it only:
/// every connection accepted before keeps its mode through any later events,
/// and the next one accepted gets the mode that the byte selected.
pub proof fn lemma_mode_isolation(start: ProxyModel, before: Seq<Event>, b: u8, after: Seq<Event>)
    ensures
        ({
            let earlier = run(start, before).accepted;
            let later = run(start, before.push(Event::Control(b)) + after).accepted;
            &&& earlier.len() <= later.len()
            &&& later.take(earlier.len() as int) == earlier
            &&& run(start, before.push(Event::Control(b)).push(Event::Accept)).accepted.last() == mode_of(flag_after(b))
        }),
    decreases after.len(),
{
    let with_b = before.push(Event::Control(b));
    assert(with_b.drop_last() =~= before);
    if after.len() == 0 {
        assert(with_b + after =~= with_b);
    } else {
        lemma_mode_isolation(start, before, b, after.drop_last());
        assert((with_b + after).drop_last() =~= with_b + after.drop_last());
        let prev = run(start, with_b + after.drop_last()).accepted;
        let earlier = run(start, before).accepted;
        assert(run(start, with_b + after).accepted.take(earlier.len() as int) =~= prev.take(earlier.len() as int));
    }
    assert(with_b.push(Event::Accept).drop_last() =~= with_b);
}

/// `host:port`, the form in which addresses are given to the socket layer.
pub fn socket_address(host: &str, port: u16) -> (r: String)
    ensures
        r@ == host@ + ":"@ + decimal(port as int),
{
    let digits = decimal_text(port as i32);
    let mut out = String::from_str(host);
    out.append(":");
    out.append(digits.as_str());
    out
}

/// Whether two texts hold the same characters.
pub fn same_text(a: &str, b: &str) -> (r: bool)
    ensures
        r == (a@ == b@),
{
    let n = a.unicode_len();
    if n != b.unicode_len() {
        return false;
    }
    let mut i: usize = 0;
    while i < n
        invariant
            n == a@.len(),
            n == b@.len(),
            i <= n,
            a@.take(i as int) == b@.take(i as int),
        decreases n - i,
    {
        if a.get_char(i) != b.get_char(i) {
            assert(a@[i as int] != b@[i as int]);
            return false;
        }
        assert(a@.take(i + 1) =~= a@.take(i as int).push(a@[i as int]));
        assert(b@.take(i + 1) =~= b@.take(i as int).push(b@[i as int]));
        i = i + 1;
    }
    assert(a@ =~= a@.take(n as int));
    assert(b@ =~= b@.take(n as int));
    true
}

/// The byte that the command line sends on the control channel: 1 to
/// enable the relay when asked with the text `true`, else 0.
pub fn proxy_flag_byte(enabling_proxy: &str) -> (r: u8)
    ensures
        r == (if enabling_proxy@ == "true"@ { 1u8 } else { 0u8 }),
{
    if same_text(enabling_proxy, "true") {
        1
    } else {
        0
    }
}

} // verus!
