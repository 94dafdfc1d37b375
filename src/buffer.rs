//! The per-stream reorder buffer: pending packets kept in forwarding order.
use vstd::prelude::*;
use crate::header::{parse, parse_spec, Header, HeaderError, PACKET_SIZE};
use crate::sequence::{offset, seq_offset, seq_precedes, WINDOW};

verus! {

/// One received datagram, waiting to be forwarded.
#[derive(Debug)]
pub struct Packet {
    pub sequence: u16,
    /// When the datagram arrived, in milliseconds on the caller's clock.
    pub arrival_ms: u64,
    /// The datagram's bytes, forwarded verbatim.
    pub data: Vec<u8>,
}

impl Packet {
    /// Reads a datagram that arrived at `arrival_ms`: its header decides
    /// whether it is accepted; the packet keeps the first `PACKET_SIZE`
    /// bytes, and the stream id comes with it.
    pub fn from_datagram(datagram: &[u8], arrival_ms: u64) -> (r: Result<(u32, Packet), HeaderError>)
        ensures
            match parse_spec(datagram@) {
                Ok(h) => r matches Ok((id, p)) && id == h.stream_id && p.sequence == h.sequence
                    && p.arrival_ms == arrival_ms && p.data@ == datagram@.take(PACKET_SIZE as int),
                Err(e) => r == Err::<(u32, Packet), HeaderError>(e),
            },
    {
        match parse(datagram) {
            Err(e) => Err(e),
            Ok(h) => {
                let mut data: Vec<u8> = Vec::new();
                let mut k: usize = 0;
                while k < PACKET_SIZE
                    invariant
                        k <= PACKET_SIZE <= datagram@.len(),
                        data@ == datagram@.take(k as int),
                    decreases PACKET_SIZE - k,
                {
                    data.push(datagram[k]);
                    k = k + 1;
                    assert(data@ =~= datagram@.take(k as int));
                }
                Ok((h.stream_id, Packet { sequence: h.sequence, arrival_ms, data }))
            },
        }
    }
}

/// Forward distance of the `i`-th packet from the first one.
pub open spec fn rank(s: Seq<Packet>, i: int) -> int {
    seq_offset(s[0].sequence, s[i].sequence)
}

/// Packets strictly increasing in wraparound order, all within one window
/// that starts at the first packet.
pub open spec fn ordered(s: Seq<Packet>) -> bool {
    s.len() > 0 ==> {
        &&& forall|i: int, j: int| 0 <= i < j < s.len() ==> rank(s, i) < rank(s, j)
        &&& rank(s, s.len() - 1) < WINDOW
    }
}

/// A packet numbered `x` can join `s` without the buffer spanning a window or more.
pub open spec fn fits(s: Seq<Packet>, x: u16) -> bool {
    ||| s.len() == 0
    ||| seq_offset(s[0].sequence, x) < WINDOW
    ||| seq_offset(x, s.last().sequence) < WINDOW
}

/// The pending packets after `p` is stored in `s`: `p` replaces any packet
/// with its sequence number, and every other packet stays.
pub open spec fn stored_with(s: Seq<Packet>, p: Packet, t: Seq<Packet>) -> bool {
    forall|q: Packet|
        #![trigger t.contains(q)]
        #![trigger s.contains(q)]
        t.contains(q) <==> (q == p || (s.contains(q) && q.sequence != p.sequence))
}

/// Going forward from `a` to `b` and then to `c` is going from `a` to `c`,
/// less one full turn where the two steps together pass it.
pub proof fn lemma_offset_chain(a: u16, b: u16, c: u16)
    ensures
        seq_offset(a, b) + seq_offset(b, c) < 65536 ==> seq_offset(a, c) == seq_offset(a, b)
            + seq_offset(b, c),
        seq_offset(a, b) + seq_offset(b, c) >= 65536 ==> seq_offset(a, c) == seq_offset(a, b)
            + seq_offset(b, c) - 65536,
{
}

/// Two sequence numbers at the same distance from one base are equal.
pub proof fn lemma_offset_injective(base: u16, x: u16, y: u16)
    ensures
        seq_offset(base, x) == seq_offset(base, y) ==> x == y,
{
}

/// Packets of an ordered buffer are forwarded in strictly increasing
/// wraparound-aware order: each comes before every packet behind it.
pub proof fn lemma_forwarding_order(s: Seq<Packet>)
    requires
        ordered(s),
    ensures
        forall|i: int, j: int|
            0 <= i < j < s.len() ==> seq_precedes(#[trigger] s[i].sequence, #[trigger] s[j].sequence),
{
    assert forall|i: int, j: int| 0 <= i < j < s.len() implies seq_precedes(
        #[trigger] s[i].sequence,
        #[trigger] s[j].sequence,
    ) by {
        lemma_offset_chain(s[0].sequence, s[i].sequence, s[j].sequence);
        assert(rank(s, i) < rank(s, j));
        assert(rank(s, j) < WINDOW) by {
            if j < s.len() - 1 {
                assert(rank(s, j) < rank(s, s.len() - 1));
            }
        }
    }
}

/// After storing `p`, the buffer holds exactly one packet numbered
/// `p.sequence`, and it is `p`: of two packets with one sequence number the
/// later stored wins.
pub proof fn lemma_last_write_wins(s: Seq<Packet>, p: Packet, t: Seq<Packet>)
    requires
        stored_with(s, p, t),
    ensures
        t.contains(p),
        forall|i: int| 0 <= i < t.len() && #[trigger] t[i].sequence == p.sequence ==> t[i] == p,
{
    assert forall|i: int| 0 <= i < t.len() && #[trigger] t[i].sequence == p.sequence implies t[i]
        == p by {
        assert(t.contains(t[i]));
    }
}

/// A packet whose sequence number is already pending always fits, so a
/// repeated sequence number is never refused: it replaces the earlier packet.
pub proof fn lemma_duplicate_fits(s: Seq<Packet>, i: int, p: Packet)
    requires
        ordered(s),
        0 <= i < s.len(),
        s[i].sequence == p.sequence,
    ensures
        fits(s, p.sequence),
{
    if i < s.len() - 1 {
        assert(rank(s, i) < rank(s, s.len() - 1));
    }
}

/// Pending packets of one stream, unique by sequence number and kept in
/// the order in which they are to be forwarded.
pub struct StreamBuffer {
    packets: Vec<Packet>,
}

impl StreamBuffer {
    /// The packets stay in forwarding order, within one window.
    #[verifier::type_invariant]
    spec fn inv(&self) -> bool {
        ordered(self.packets@)
    }
}

/// `StreamBuffer::insert` on the bare vector of packets.
fn insert_ordered(packets: &mut Vec<Packet>, packet: Packet) -> (accepted: bool)
    requires
        ordered(old(packets)@),
    ensures
        ordered(final(packets)@),
        accepted == fits(old(packets)@, packet.sequence),
        accepted ==> stored_with(old(packets)@, packet, final(packets)@),
        !accepted ==> final(packets)@ == old(packets)@,
{
    let ghost s = packets@;
    let ghost p = packet;
    let n = packets.len();
    if n == 0 {
        packets.push(packet);
        assert(packets@ =~= seq![p]);
        assert forall|q: Packet| #[trigger] packets@.contains(q) implies q == p by {
            let k = choose|k: int| 0 <= k < 1 && packets@[k] == q;
        }
        assert(packets@[0] == p);
        return true;
    }
    let head = packets[0].sequence;
    let d = offset(head, packet.sequence);
    let mut i: usize = 0;
    while i < n && offset(head, packets[i].sequence) < d
        invariant
            s == packets@,
            n == s.len(),
            head == s[0].sequence,
            0 <= i <= n,
            forall|j: int| 0 <= j < i ==> rank(s, j) < d,
        decreases n - i,
    {
        i = i + 1;
    }
    if i < n {
        proof {
            lemma_offset_injective(head, s[i as int].sequence, p.sequence);
            assert(rank(s, i as int) < WINDOW) by {
                if i < n - 1 {
                    assert(rank(s, i as int) < rank(s, n - 1));
                }
            }
            assert forall|j: int| 0 <= j < n && j != i implies #[trigger] s[j].sequence
                != p.sequence by {
                lemma_offset_injective(head, s[j].sequence, p.sequence);
                if j < i {
                    assert(rank(s, j) < d);
                }
                if j > i {
                    assert(rank(s, i as int) < rank(s, j));
                }
            }
        }
        if offset(head, packets[i].sequence) == d {
            packets.set(i, packet);
            let ghost t = packets@;
            assert(t == s.update(i as int, p));
            assert(forall|j: int| 0 <= j < n ==> rank(t, j) == rank(s, j));
            assert forall|q: Packet|
                t.contains(q) <==> (q == p || (s.contains(q) && q.sequence != p.sequence)) by {
                if t.contains(q) {
                    let k = choose|k: int| 0 <= k < n && t[k] == q;
                    if k != i {
                        assert(s[k] == q);
                    }
                }
                if q == p {
                    assert(t[i as int] == q);
                }
                if s.contains(q) && q.sequence != p.sequence {
                    let k = choose|k: int| 0 <= k < n && s[k] == q;
                    assert(t[k] == q);
                }
            }
        } else {
            packets.insert(i, packet);
            let ghost t = packets@;
            assert(i > 0);
            assert(t[0] == s[0]);
            assert(forall|j: int| 0 <= j < i ==> t[j] == s[j]);
            assert(forall|j: int| i < j <= n ==> t[j] == s[j - 1]);
            assert(rank(t, i as int) == d);
            assert forall|a: int, b: int| 0 <= a < b < t.len() implies rank(t, a) < rank(t, b) by {
                if a < i {
                    assert(t[a] == s[a]);
                    assert(rank(t, a) == rank(s, a));
                } else if a > i {
                    assert(t[a] == s[a - 1]);
                    assert(rank(t, a) == rank(s, a - 1));
                }
                if b < i {
                    assert(t[b] == s[b]);
                    assert(rank(t, b) == rank(s, b));
                } else if b > i {
                    assert(t[b] == s[b - 1]);
                    assert(rank(t, b) == rank(s, b - 1));
                }
                if b < i {
                } else if b == i {
                } else if a < i {
                    assert(rank(s, a) < d);
                    if b - 1 > i {
                        assert(rank(s, i as int) < rank(s, b - 1));
                    }
                } else if a == i {
                    if b - 1 > i {
                        assert(rank(s, i as int) < rank(s, b - 1));
                    }
                } else {
                    assert(rank(s, a - 1) < rank(s, b - 1));
                }
            }
            assert(rank(t, t.len() - 1) == rank(s, n - 1));
            assert forall|q: Packet|
                t.contains(q) <==> (q == p || (s.contains(q) && q.sequence != p.sequence)) by {
                if t.contains(q) {
                    let k = choose|k: int| 0 <= k < t.len() && t[k] == q;
                    if k < i {
                        assert(s[k] == q);
                    } else if k > i {
                        assert(s[k - 1] == q);
                    }
                }
                if q == p {
                    assert(t[i as int] == q);
                }
                if s.contains(q) && q.sequence != p.sequence {
                    let k = choose|k: int| 0 <= k < n && s[k] == q;
                    if k < i {
                        assert(t[k] == q);
                    } else {
                        assert(t[k + 1] == q);
                    }
                }
            }
        }
        return true;
    }
    proof {
        assert forall|j: int| 0 <= j < n implies #[trigger] s[j].sequence != p.sequence by {
            lemma_offset_injective(head, s[j].sequence, p.sequence);
            assert(rank(s, j) < d);
        }
    }
    let last = packets[n - 1].sequence;
    if d < WINDOW {
        packets.push(packet);
        let ghost t = packets@;
        assert(t == s.push(p));
        assert(forall|j: int| 0 <= j < n ==> t[j] == s[j]);
        assert(rank(t, n as int) == d);
        assert forall|a: int, b: int| 0 <= a < b < t.len() implies rank(t, a) < rank(t, b) by {
            assert(rank(t, a) == rank(s, a));
            assert(rank(s, a) < d);
            if b < n {
                assert(rank(t, b) == rank(s, b));
            }
        }
        assert forall|q: Packet|
            t.contains(q) <==> (q == p || (s.contains(q) && q.sequence != p.sequence)) by {
            if t.contains(q) {
                let k = choose|k: int| 0 <= k < t.len() && t[k] == q;
                if k < n {
                    assert(s[k] == q);
                }
            }
            if q == p {
                assert(t[n as int] == q);
            }
            if s.contains(q) && q.sequence != p.sequence {
                let k = choose|k: int| 0 <= k < n && s[k] == q;
                assert(t[k] == q);
            }
        }
        true
    } else if offset(packet.sequence, last) < WINDOW {
        packets.insert(0, packet);
        let ghost t = packets@;
        assert(t == s.insert(0, p));
        assert(forall|j: int| 0 < j <= n ==> t[j] == s[j - 1]);
        proof {
            lemma_offset_chain(p.sequence, head, last);
            assert forall|j: int| 0 <= j < n implies rank(t, j + 1) == 65536 - d + rank(s, j) by {
                lemma_offset_chain(p.sequence, head, s[j].sequence);
                lemma_offset_chain(head, p.sequence, head);
                if j < n - 1 {
                    assert(rank(s, j) < rank(s, n - 1));
                }
            }
            assert forall|a: int, b: int| 0 <= a < b < t.len() implies rank(t, a) < rank(t, b) by {
                if a > 0 {
                    assert(rank(s, a - 1) < rank(s, b - 1));
                } else {
                    assert(rank(t, b) == 65536 - d + rank(s, b - 1));
                }
            }
            assert(rank(t, t.len() - 1) == 65536 - d + rank(s, n - 1));
        }
        assert forall|q: Packet|
            t.contains(q) <==> (q == p || (s.contains(q) && q.sequence != p.sequence)) by {
            if t.contains(q) {
                let k = choose|k: int| 0 <= k < t.len() && t[k] == q;
                if k > 0 {
                    assert(s[k - 1] == q);
                }
            }
            if q == p {
                assert(t[0] == q);
            }
            if s.contains(q) && q.sequence != p.sequence {
                let k = choose|k: int| 0 <= k < n && s[k] == q;
                assert(t[k + 1] == q);
            }
        }
        true
    } else {
        false
    }
}

/// `StreamBuffer::pop_min` on the bare vector of packets.
fn pop_first_ordered(packets: &mut Vec<Packet>) -> (r: Option<Packet>)
    requires
        ordered(old(packets)@),
    ensures
        ordered(final(packets)@),
        old(packets)@.len() == 0 ==> r.is_none() && final(packets)@ == old(packets)@,
        old(packets)@.len() > 0 ==> r == Some(old(packets)@[0]) && final(packets)@ == old(packets)@.drop_first(),
        r matches Some(p) ==> forall|i: int|
            0 <= i < final(packets)@.len() ==> seq_precedes(p.sequence, #[trigger] final(packets)@[i].sequence),
{
    if packets.len() == 0 {
        return None;
    }
    let ghost s = packets@;
    let p = packets.remove(0);
    let ghost t = packets@;
    assert(t =~= s.drop_first());
    proof {
        lemma_forwarding_order(s);
        if t.len() > 0 {
            let n = s.len();
            assert forall|j: int| 0 <= j < t.len() implies rank(t, j) == rank(s, j + 1) - rank(s, 1) by {
                lemma_offset_chain(s[0].sequence, s[1].sequence, s[j + 1].sequence);
                if j > 0 {
                    assert(rank(s, 1) < rank(s, j + 1));
                }
                if j + 1 < n - 1 {
                    assert(rank(s, j + 1) < rank(s, n - 1));
                }
            }
            assert forall|a: int, b: int| 0 <= a < b < t.len() implies rank(t, a) < rank(t, b) by {
                assert(rank(s, a + 1) < rank(s, b + 1));
            }
            assert(rank(t, t.len() - 1) == rank(s, n - 1) - rank(s, 1));
        }
        assert forall|i: int| 0 <= i < t.len() implies seq_precedes(
            p.sequence,
            #[trigger] t[i].sequence,
        ) by {
            assert(s[i + 1] == t[i]);
        }
    }
    Some(p)
}

impl View for StreamBuffer {
    type V = Seq<Packet>;

    closed spec fn view(&self) -> Seq<Packet> {
        self.packets@
    }
}

impl StreamBuffer {
    /// An empty buffer.
    pub fn new() -> (r: StreamBuffer)
        ensures
            r@ == Seq::<Packet>::empty(),
            ordered(r@),
    {
        StreamBuffer { packets: Vec::new() }
    }

    /// Stores `packet`, replacing a pending packet with the same sequence
    /// number (the later arrival wins). A packet that would make the buffer
    /// span `WINDOW` sequence numbers or more is refused, and the buffer is
    /// left as it was; the result says whether the packet was stored.
    pub fn insert(&mut self, packet: Packet) -> (accepted: bool)
        ensures
            ordered(final(self)@),
            accepted == fits(old(self)@, packet.sequence),
            accepted ==> stored_with(old(self)@, packet, final(self)@),
            !accepted ==> final(self)@ == old(self)@,
    {
        proof {
            use_type_invariant(&*self);
        }
        let mut packets: Vec<Packet> = Vec::new();
        std::mem::swap(&mut self.packets, &mut packets);
        let accepted = insert_ordered(&mut packets, packet);
        self.packets = packets;
        accepted
    }

    /// Removes and returns the pending packet that comes first in
    /// wraparound-aware order; every packet left comes after it.
    pub fn pop_min(&mut self) -> (r: Option<Packet>)
        ensures
            ordered(final(self)@),
            old(self)@.len() == 0 ==> r.is_none() && final(self)@ == old(self)@,
            old(self)@.len() > 0 ==> r == Some(old(self)@[0]) && final(self)@ == old(self)@.drop_first(),
            r matches Some(p) ==> forall|i: int|
                0 <= i < final(self)@.len() ==> seq_precedes(p.sequence, #[trigger] final(self)@[i].sequence),
    {
        proof {
            use_type_invariant(&*self);
        }
        let mut packets: Vec<Packet> = Vec::new();
        std::mem::swap(&mut self.packets, &mut packets);
        let r = pop_first_ordered(&mut packets);
        self.packets = packets;
        r
    }

    /// Number of pending packets.
    pub fn len(&self) -> (r: usize)
        ensures
            r == self@.len(),
    {
        self.packets.len()
    }

    /// Whether no packet is pending.
    pub fn is_empty(&self) -> (r: bool)
        ensures
            r == (self@.len() == 0),
    {
        self.packets.len() == 0
    }

    /// Sequence number of the packet that `pop_min` would return.
    pub fn first_sequence(&self) -> (r: Option<u16>)
        ensures
            r == (if self@.len() == 0 {
                None
            } else {
                Some(self@[0].sequence)
            }),
    {
        if self.packets.len() == 0 {
            None
        } else {
            Some(self.packets[0].sequence)
        }
    }
}

} // verus!
