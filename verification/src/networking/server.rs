//! The connection table and the server's tick.

use crate::engine::time::{elapsed, Timing, SECOND};
use crate::gameplay::server_game_logic::{names, players_after_tick, simulated, unreadable, ServerGameLogic, World};
use crate::table::Table;
use crate::wire::{ack_text, encode_snapshot, handshake_ack, snapshot_text, text_packet};
use vstd::prelude::*;

verus! {

/// How many simulation steps the server takes each second.
pub const TICK_RATE: u64 = 60;

/// The largest datagram that either side receives, in bytes.
pub const MAX_DATAGRAM: usize = 1024;

/// The server's state between ticks: its clock, the last payload received from each
/// remote address, and the snapshot text it broadcast last.
pub struct Server {
    pub time: Timing,
    pub connections: Table<String>,
    pub last_data_sent: String,
}

/// What one non-blocking receive gave.
pub enum Inbound {
    /// Nothing was waiting.
    Silent,
    /// One datagram, with the address it came from as `ip:port`.
    Datagram { source: String, payload: String },
    /// The transport failed.
    Failed,
}

/// A datagram to send.
pub struct Outgoing {
    pub to: String,
    pub payload: String,
}

/// What a tick asks of the transport, and what it has to report.
pub struct Tick {
    /// The datagrams to send, in this order.
    pub sent: Vec<Outgoing>,
    /// Whether the datagram received in this tick came from a new address.
    pub joined: bool,
    /// The places in the connection table of the payloads that held no input packet.
    pub rejected: Vec<usize>,
    /// Whether the transport failed, so that the server has to stop.
    pub stopped: bool,
}

/// Datagrams as pairs of destination and payload.
pub open spec fn datagrams(sent: Seq<Outgoing>) -> Seq<(Seq<char>, Seq<char>)> {
    Seq::new(sent.len(), |i: int| (sent[i].to@, sent[i].payload@))
}

/// One copy of `text` for each address, in the order of the addresses.
pub open spec fn to_all(addresses: Seq<Seq<char>>, text: Seq<char>) -> Seq<(Seq<char>, Seq<char>)> {
    Seq::new(addresses.len(), |i: int| (addresses[i], text))
}

/// The broadcast that a rendered snapshot calls for: a copy for every address where
/// the text differs from the one broadcast last, and nothing otherwise, or where the
/// snapshot could not be rendered.
pub open spec fn broadcast(addresses: Seq<Seq<char>>, last: Seq<char>, rendered: Option<Seq<char>>) -> Seq<
    (Seq<char>, Seq<char>),
> {
    match rendered {
        Some(text) if text != last => to_all(addresses, text),
        _ => Seq::empty(),
    }
}

/// The text that counts as broadcast last after a rendered snapshot was handled.
pub open spec fn remembered(last: Seq<char>, rendered: Option<Seq<char>>) -> Seq<char> {
    match rendered {
        Some(text) => text,
        None => last,
    }
}

/// The acknowledgement that an inbound datagram calls for.
pub open spec fn acknowledged(inbound: Inbound) -> Seq<(Seq<char>, Seq<char>)> {
    match inbound {
        Inbound::Datagram { source, payload } => seq![(source@, handshake_ack())],
        _ => Seq::empty(),
    }
}

/// The addresses after an inbound datagram was stored.
pub open spec fn addresses_after(addresses: Seq<Seq<char>>, inbound: Inbound) -> Seq<Seq<char>> {
    match inbound {
        Inbound::Datagram { source, payload } if !addresses.contains(source@) => addresses.push(source@),
        _ => addresses,
    }
}

/// The stored payloads after an inbound datagram was stored.
pub open spec fn payloads_after(addresses: Seq<Seq<char>>, payloads: Seq<Seq<char>>, inbound: Inbound) -> Seq<
    Seq<char>,
> {
    match inbound {
        Inbound::Datagram { source, payload } => if addresses.contains(source@) {
            payloads.update(addresses.index_of(source@), payload@)
        } else {
            payloads.push(payload@)
        },
        _ => payloads,
    }
}

impl Server {
    /// What holds of every server state: the connection table is a table.
    pub open spec fn wf(self) -> bool {
        self.connections.wf()
    }

    /// The remote addresses seen so far, oldest first.
    pub open spec fn addresses(self) -> Seq<Seq<char>> {
        self.connections.keys()
    }

    /// The last payload received from each address, in the order of the addresses.
    pub open spec fn payloads(self) -> Seq<Seq<char>> {
        Seq::new(self.connections.values().len(), |i: int| self.connections.values()[i]@)
    }

    /// A server that has seen no client and broadcast nothing.
    pub fn new() -> (server: Server)
        ensures
            server.wf(),
            server.time == (Timing { last_tick: 0, delta_time: 0 }),
            server.addresses() == Seq::<Seq<char>>::empty(),
            server.payloads() == Seq::<Seq<char>>::empty(),
            server.last_data_sent@ == Seq::<char>::empty(),
    {
        let server = Server { time: Timing::new(), connections: Table::new(), last_data_sent: String::new() };
        proof {
            assert(server.payloads() =~= Seq::<Seq<char>>::empty());
        }
        server
    }

    /// Whether a tick is due at `now`.
    pub fn due(&self, now: u64) -> (yes: bool)
        ensures
            yes == (elapsed(self.time.last_tick, now) * TICK_RATE >= SECOND),
    {
        self.time.due(now, TICK_RATE)
    }

    /// Stores `payload` as the last payload of `source`. A source not seen before is
    /// appended to the table, and only then the result is `true`.
    pub fn absorb(&mut self, source: String, payload: String) -> (joined: bool)
        requires
            old(self).wf(),
        ensures
            final(self).wf(),
            final(self).time == old(self).time,
            final(self).last_data_sent == old(self).last_data_sent,
            joined == !old(self).addresses().contains(source@),
            joined ==> final(self).addresses() == old(self).addresses().push(source@)
                && final(self).payloads() == old(self).payloads().push(payload@),
            !joined ==> final(self).addresses() == old(self).addresses()
                && final(self).payloads() == old(self).payloads().update(
                old(self).addresses().index_of(source@),
                payload@,
            ),
    {
        proof {
            self.connections.shape();
        }
        match self.connections.find(&source) {
            Some(i) => {
                self.connections.replace(i, payload);
                proof {
                    assert(self.payloads() =~= old(self).payloads().update(i as int, payload@));
                }
                false
            },
            None => {
                self.connections.append(source, payload);
                proof {
                    assert(self.payloads() =~= old(self).payloads().push(payload@));
                }
                true
            },
        }
    }

    /// Decides the broadcast for a snapshot rendered as `rendered`: a copy to every
    /// connection where the text differs from the one broadcast last, which it then
    /// replaces. Nothing is sent where the text is the same, or where there is none.
    pub fn publish(&mut self, rendered: Option<String>) -> (sent: Vec<Outgoing>)
        requires
            old(self).wf(),
        ensures
            final(self).wf(),
            final(self).time == old(self).time,
            final(self).addresses() == old(self).addresses(),
            final(self).payloads() == old(self).payloads(),
            datagrams(sent@) == broadcast(
                old(self).addresses(),
                old(self).last_data_sent@,
                match rendered {
                    Some(t) => Some(t@),
                    None => None,
                },
            ),
            final(self).last_data_sent@ == remembered(
                old(self).last_data_sent@,
                match rendered {
                    Some(t) => Some(t@),
                    None => None,
                },
            ),
    {
        let mut sent: Vec<Outgoing> = Vec::new();
        match rendered {
            Some(text) => {
                if !(text == self.last_data_sent) {
                    let n = self.connections.len();
                    let mut i: usize = 0;
                    while i < n
                        invariant
                            i <= n,
                            self.wf(),
                            n == self.addresses().len(),
                            sent@.len() == i,
                            forall|j: int|
                                0 <= j < i ==> (#[trigger] sent@[j]).to@ == self.addresses()[j] && sent@[j].payload@
                                    == text@,
                        decreases n - i,
                    {
                        sent.push(Outgoing { to: self.connections.key(i).clone(), payload: text.clone() });
                        i += 1;
                    }
                    proof {
                        assert(datagrams(sent@) =~= to_all(self.addresses(), text@));
                    }
                    self.last_data_sent = text;
                } else {
                    proof {
                        assert(datagrams(sent@) =~= Seq::empty());
                    }
                }
            },
            None => {
                proof {
                    assert(datagrams(sent@) =~= Seq::empty());
                }
            },
        }
        sent
    }

    /// One tick of the server, in its fixed order: the clock steps to `now`; the
    /// world is simulated from the payloads stored before this tick; the inbound
    /// datagram, if there is one, is acknowledged and stored; the snapshot is
    /// broadcast if its text changed. A failed transport stops the server after the
    /// simulation, and nothing is sent.
    pub fn tick(&mut self, logic: &mut ServerGameLogic, now: u64, inbound: Inbound) -> (report: Tick)
        requires
            old(self).wf(),
            old(logic).wf(),
        ensures
            final(self).wf(),
            final(logic).wf(),
            final(self).time.last_tick == now,
            final(self).time.delta_time == elapsed(old(self).time.last_tick, now),
            final(logic).returnable@ == simulated(
                old(logic).returnable@,
                old(self).payloads(),
                final(self).time.delta_time,
            ),
            report.rejected@ == unreadable(old(self).payloads()),
            report.stopped == (inbound is Failed),
            report.joined == (inbound matches Inbound::Datagram { source, payload }
                && !old(self).addresses().contains(source@)),
            report.stopped ==> {
                &&& report.sent@.len() == 0
                &&& final(self).addresses() == old(self).addresses()
                &&& final(self).payloads() == old(self).payloads()
                &&& final(self).last_data_sent@ == old(self).last_data_sent@
            },
            !report.stopped ==> {
                &&& final(self).addresses() == addresses_after(old(self).addresses(), inbound)
                &&& final(self).payloads() == payloads_after(old(self).addresses(), old(self).payloads(), inbound)
                &&& datagrams(report.sent@) == acknowledged(inbound) + broadcast(
                    final(self).addresses(),
                    old(self).last_data_sent@,
                    snapshot_text(final(logic).returnable@),
                )
                &&& final(self).last_data_sent@ == remembered(
                    old(self).last_data_sent@,
                    snapshot_text(final(logic).returnable@),
                )
            },
    {
        self.time.update(now);
        let rejected = logic.update(&*self);
        let mut sent: Vec<Outgoing> = Vec::new();
        let mut joined = false;
        match inbound {
            Inbound::Failed => {
                return Tick { sent, joined, rejected, stopped: true };
            },
            Inbound::Silent => {},
            Inbound::Datagram { source, payload } => {
                sent.push(Outgoing { to: source.clone(), payload: ack_text() });
                joined = self.absorb(source, payload);
            },
        }
        let ghost acks = datagrams(sent@);
        proof {
            assert(acks =~= acknowledged(inbound));
        }
        let rendered = encode_snapshot(&logic.returnable);
        let mut copies = self.publish(rendered);
        let ghost before = sent@;
        let ghost added = copies@;
        sent.append(&mut copies);
        proof {
            assert(datagrams(sent@) =~= datagrams(before) + datagrams(added));
        }
        Tick { sent, joined, rejected, stopped: false }
    }
}

/// No-op suppression: whatever was rendered in one tick, rendering the same text in
/// the next tick sends nothing, to whatever connections there are by then.
pub proof fn unchanged_snapshot_is_not_resent(addresses: Seq<Seq<char>>, last: Seq<char>, rendered: Option<Seq<char>>)
    ensures
        broadcast(addresses, remembered(last, rendered), rendered) == Seq::<(Seq<char>, Seq<char>)>::empty(),
{
}

/// Whatever is broadcast differs from the text broadcast last, and goes once to
/// every connection.
pub proof fn broadcast_is_news(addresses: Seq<Seq<char>>, last: Seq<char>, rendered: Option<Seq<char>>)
    ensures
        broadcast(addresses, last, rendered).len() > 0 ==> rendered is Some && rendered->0 != last,
        broadcast(addresses, last, rendered).len() == 0 || broadcast(addresses, last, rendered).len()
            == addresses.len(),
        forall|i: int|
            0 <= i < broadcast(addresses, last, rendered).len() ==> (#[trigger] broadcast(addresses, last, rendered)[i])
                == (addresses[i], rendered->0),
{
}

/// A tick without a datagram, over a world whose text is the one rendered in the
/// tick before, sends nothing at all.
pub proof fn quiet_tick_sends_nothing(addresses: Seq<Seq<char>>, last: Seq<char>, rendered: Option<Seq<char>>)
    ensures
        acknowledged(Inbound::Silent) + broadcast(addresses, remembered(last, rendered), rendered) == Seq::<
            (Seq<char>, Seq<char>),
        >::empty(),
{
}

/// Reachability: once a datagram that holds an input packet is stored, the next
/// tick has the packet's player in its world, and so has every tick after it, as
/// [`players_after_tick`] shows.
pub proof fn stored_packet_reaches_the_world(
    w: World,
    addresses: Seq<Seq<char>>,
    payloads: Seq<Seq<char>>,
    inbound: Inbound,
    delta_time: u64,
)
    requires
        w.wf(),
        addresses.len() == payloads.len(),
        inbound is Datagram,
        text_packet(inbound->payload@) is Some,
    ensures
        simulated(w, payloads_after(addresses, payloads, inbound), delta_time).has(
            text_packet(inbound->payload@)->0.id,
        ),
{
    let stored = payloads_after(addresses, payloads, inbound);
    let id = text_packet(inbound->payload@)->0.id;
    let at = if addresses.contains(inbound->source@) {
        addresses.index_of(inbound->source@)
    } else {
        payloads.len() as int
    };
    assert(0 <= at < stored.len());
    assert(stored[at] == inbound->payload@);
    assert(names(stored[at], id));
    players_after_tick(w, stored, delta_time);
}

} // verus!
