use vstd::prelude::*;
use vstd::slice::{slice_subrange, slice_to_vec};
use vstd::arithmetic::div_mod::{lemma_div_denominator, lemma_fundamental_div_mod};
use tokio::time::Instant;

verus! {

/// The size of a receive buffer; a datagram that fills it whole ends the connection.
pub const MAX_BUFFER_SIZE: usize = 32768;

/// The largest piece of a message sent in one datagram.
pub const MAX_PACKET_SIZE: usize = 32760;

/// Nanoseconds of silence after which a peer is taken as gone (one second).
pub const PACKET_TIMEOUT_NANOS: u128 = 1_000_000_000;

/// What a connection reports to the program that uses it.
#[derive(Clone)]
pub enum ConnectionState {
    Start,
    Data(Vec<u8>),
    End,
}

/// Whether a datagram of `size` bytes ends the connection: a peer ends it with a
/// datagram that fills the whole receive buffer.
pub fn ends_connection(size: usize) -> (r: bool)
    ensures
        r == (size == MAX_BUFFER_SIZE),
{
    size == MAX_BUFFER_SIZE
}

/// What a server does with a datagram from a peer.
#[derive(Clone, Copy, Debug, PartialEq, Eq)]
pub enum SessionAction {
    /// The peer ended the connection: report the end and drop its session.
    End,
    /// Answer with a ping and hand the datagram to the peer's session, opened
    /// first where the peer has none.
    Receive { open_session: bool },
}

/// The server's decision on a datagram of `size` bytes from a peer that has a
/// session (`known`) or not.
pub fn session_action(known: bool, size: usize) -> (r: SessionAction)
    ensures
        r == (if size == MAX_BUFFER_SIZE {
            SessionAction::End
        } else {
            SessionAction::Receive { open_session: !known }
        }),
{
    if ends_connection(size) {
        SessionAction::End
    } else {
        SessionAction::Receive { open_session: !known }
    }
}

// ---------------------------------------------------------------------------
// Liveness of a peer
// ---------------------------------------------------------------------------

#[verifier::external_type_specification]
#[verifier::external_body]
pub struct ExInstant(Instant);

/// What to do about a peer on each tick: ping it, or drop it as timed out.
#[derive(Clone, Copy, Debug, PartialEq, Eq)]
pub enum Life {
    Ping,
    Timeout,
}

/// `tokio::time::Instant::elapsed`, in nanoseconds: the time since `last`.
/// Nothing is stated of it: it depends on the clock.
#[verifier::external_body]
fn nanos_since(last: &Instant) -> u128 {
    last.elapsed().as_nanos()
}

impl Life {
    /// A peer is timed out once more than a second went by since it was last
    /// heard from; otherwise it is pinged.
    pub fn from_elapsed_nanos(elapsed: u128) -> (r: Life)
        ensures
            r == (if elapsed > PACKET_TIMEOUT_NANOS {
                Life::Timeout
            } else {
                Life::Ping
            }),
    {
        if elapsed > PACKET_TIMEOUT_NANOS {
            Life::Timeout
        } else {
            Life::Ping
        }
    }

    /// The fate of a peer last heard from at `last`, by the clock now: the time
    /// elapsed goes through [`Life::from_elapsed_nanos`].
    pub fn check_life(last: Instant) -> Life {
        Life::from_elapsed_nanos(nanos_since(&last))
    }
}

// ---------------------------------------------------------------------------
// Big-endian numbers
// ---------------------------------------------------------------------------

/// 256 to the power `k`.
pub open spec fn p256(k: nat) -> nat
    decreases k,
{
    if k == 0 {
        1
    } else {
        256 * p256((k - 1) as nat)
    }
}

/// The number that the bytes `b` write in big-endian order.
pub open spec fn be_value(b: Seq<u8>) -> nat
    decreases b.len(),
{
    if b.len() == 0 {
        0
    } else {
        be_value(b.drop_last()) * 256 + b.last() as nat
    }
}

/// The last `k` base-256 digits of `n`, most significant first.
pub open spec fn be_bytes(n: nat, k: nat) -> Seq<u8>
    decreases k,
{
    if k == 0 {
        seq![]
    } else {
        be_bytes(n / 256, (k - 1) as nat).push((n % 256) as u8)
    }
}

proof fn lemma_be_value_bound(b: Seq<u8>)
    ensures
        be_value(b) < p256(b.len()),
    decreases b.len(),
{
    if b.len() > 0 {
        lemma_be_value_bound(b.drop_last());
        let v = be_value(b.drop_last());
        let p = p256((b.len() - 1) as nat);
        let x = b.last();
        assert(v * 256 + x < 256 * p) by (nonlinear_arith)
            requires
                v < p,
                x < 256,
        ;
    }
}

proof fn lemma_be_bytes_len(n: nat, k: nat)
    ensures
        be_bytes(n, k).len() == k,
    decreases k,
{
    if k > 0 {
        lemma_be_bytes_len(n / 256, (k - 1) as nat);
    }
}

proof fn lemma_be_bytes_value(n: nat, k: nat)
    ensures
        be_value(be_bytes(n, k)) + p256(k) * (n / p256(k)) == n,
    decreases k,
{
    if k == 0 {
        assert(be_value(be_bytes(n, k)) == 0);
        assert(p256(k) == 1);
        assert(n / 1 == n);
        assert(1 * (n / 1) == n);
    } else {
        let m = n / 256;
        let p = p256((k - 1) as nat);
        lemma_be_bytes_value(m, (k - 1) as nat);
        lemma_be_bytes_len(m, (k - 1) as nat);
        let b = be_bytes(n, k);
        assert(b.drop_last() =~= be_bytes(m, (k - 1) as nat));
        lemma_fundamental_div_mod(n as int, 256);
        lemma_p256_pos((k - 1) as nat);
        lemma_div_denominator(n as int, 256, p as int);
        let r = n % 256;
        let q = m / p;
        let v = be_value(be_bytes(m, (k - 1) as nat));
        assert(((r as u8) as nat) == r);
        assert(b.last() == (r as u8));
        assert(be_value(b) == v * 256 + r);
        assert(p256(k) == 256 * p);
        assert(n / p256(k) == q);
        assert(v * 256 + r + (256 * p) * q == n) by (nonlinear_arith)
            requires
                v + p * q == m,
                n == 256 * m + r,
        ;
    }
}

/// Eight bytes written by [`be_bytes`] read back as the number they came from.
pub proof fn lemma_be_roundtrip(n: u64)
    ensures
        be_bytes(n as nat, 8).len() == 8,
        be_value(be_bytes(n as nat, 8)) == n,
{
    lemma_be_bytes_len(n as nat, 8);
    lemma_be_bytes_value(n as nat, 8);
    assert(p256(8) == 0x1_0000_0000_0000_0000) by {
        reveal_with_fuel(p256, 9);
    }
    let p = p256(8);
    let q = n as nat / p;
    assert(q == 0) by (nonlinear_arith)
        requires
            q == n as nat / p,
            n < p,
            p > 0,
    ;
}

/// The number that the first eight bytes of `b` write in big-endian order.
fn be_u64_prefix(b: &[u8]) -> (r: u64)
    requires
        b@.len() >= 8,
    ensures
        r == be_value(b@.take(8)),
{
    let mut v: u64 = 0;
    let mut i: usize = 0;
    while i < 8
        invariant
            b@.len() >= 8,
            i <= 8,
            v == be_value(b@.take(i as int)),
        decreases 8 - i,
    {
        proof {
            lemma_be_value_bound(b@.take(i as int));
            assert(p256(7) == 0x100_0000_0000_0000) by {
                reveal_with_fuel(p256, 8);
            }
            assert(b@.take(i + 1).drop_last() =~= b@.take(i as int));
            let p = p256(i as nat);
            assert(p <= p256(7)) by {
                lemma_p256_monotone(i as nat, 7);
            }
            assert(v * 256 + b@[i as int] < 0x1_0000_0000_0000_0000) by (nonlinear_arith)
                requires
                    v < p,
                    p <= 0x100_0000_0000_0000,
                    b@[i as int] < 256,
            ;
        }
        v = v * 256 + b[i] as u64;
        i = i + 1;
    }
    v
}

proof fn lemma_p256_pos(k: nat)
    ensures
        p256(k) > 0,
    decreases k,
{
    if k > 0 {
        lemma_p256_pos((k - 1) as nat);
    }
}

proof fn lemma_p256_monotone(i: nat, j: nat)
    requires
        i <= j,
    ensures
        p256(i) <= p256(j),
    decreases j,
{
    if i < j {
        lemma_p256_monotone(i, (j - 1) as nat);
    }
}

/// The last `k` base-256 digits of `n`, most significant first.
fn be_bytes_of(n: u64, k: usize) -> (r: Vec<u8>)
    ensures
        r@ == be_bytes(n as nat, k as nat),
    decreases k,
{
    if k == 0 {
        Vec::new()
    } else {
        let mut r = be_bytes_of(n / 256, k - 1);
        r.push((n % 256) as u8);
        r
    }
}

// ---------------------------------------------------------------------------
// Framing: a message as datagrams
// ---------------------------------------------------------------------------

/// A message cut into pieces of [`MAX_PACKET_SIZE`] bytes, the last one shorter;
/// an empty message has no pieces.
pub open spec fn chunks(m: Seq<u8>) -> Seq<Seq<u8>>
    decreases m.len(),
{
    if m.len() == 0 {
        seq![]
    } else if m.len() <= MAX_PACKET_SIZE {
        seq![m]
    } else {
        seq![m.take(MAX_PACKET_SIZE as int)] + chunks(m.skip(MAX_PACKET_SIZE as int))
    }
}

/// The datagrams that carry a message: its length as eight big-endian bytes,
/// then its pieces.
pub open spec fn frames(m: Seq<u8>) -> Seq<Seq<u8>> {
    seq![be_bytes(m.len(), 8)] + chunks(m)
}

/// The bytes of each datagram.
pub open spec fn frames_view(v: Seq<Vec<u8>>) -> Seq<Seq<u8>> {
    v.map_values(|x: Vec<u8>| x@)
}

/// The datagrams that carry `data`, in the order they are sent.
pub fn encode_frames(data: &Vec<u8>) -> (r: Vec<Vec<u8>>)
    ensures
        frames_view(r@) == frames(data@),
{
    let n = data.len();
    let mut out: Vec<Vec<u8>> = Vec::new();
    out.push(be_bytes_of(n as u64, 8));
    let mut i: usize = 0;
    proof {
        assert(data@.skip(0) =~= data@);
        assert(frames_view(out@) =~= seq![be_bytes(n as nat, 8)]);
    }
    while i < n
        invariant
            n == data@.len(),
            i <= n,
            frames(data@) == frames_view(out@) + chunks(data@.skip(i as int)),
        decreases n - i,
    {
        let ghost before = frames_view(out@);
        let ghost rest = data@.skip(i as int);
        let end = if n - i <= MAX_PACKET_SIZE {
            n
        } else {
            i + MAX_PACKET_SIZE
        };
        let piece = slice_to_vec(slice_subrange(data.as_slice(), i, end));
        out.push(piece);
        proof {
            assert(piece@ =~= data@.subrange(i as int, end as int));
            assert(frames_view(out@) =~= before.push(piece@));
            if n - i <= MAX_PACKET_SIZE {
                assert(piece@ =~= rest);
                assert(data@.skip(end as int) =~= Seq::<u8>::empty());
                assert(chunks(rest) =~= seq![rest]);
                assert(before + chunks(rest) =~= before.push(piece@) + chunks(
                    data@.skip(end as int),
                ));
            } else {
                assert(piece@ =~= rest.take(MAX_PACKET_SIZE as int));
                assert(rest.skip(MAX_PACKET_SIZE as int) =~= data@.skip(end as int));
                assert(before + chunks(rest) =~= before.push(piece@) + chunks(
                    data@.skip(end as int),
                ));
            }
        }
        i = end;
    }
    proof {
        assert(data@.skip(n as int) =~= Seq::<u8>::empty());
        assert(frames_view(out@) + Seq::<Seq<u8>>::empty() =~= frames_view(out@));
    }
    out
}

// ---------------------------------------------------------------------------
// Reassembly: datagrams back into a message
// ---------------------------------------------------------------------------

/// The mathematical value of a [`Packet`]: the announced length, once a header
/// came, and the bytes gathered since.
pub struct PacketModel {
    pub size: Option<u64>,
    pub data: Seq<u8>,
}

/// A packet that waits for a header and holds nothing.
pub open spec fn fresh() -> PacketModel {
    PacketModel { size: None, data: seq![] }
}

/// What one datagram does to a packet: the new packet, and the message it
/// completes, if any.
pub struct RecvStep {
    pub state: PacketModel,
    pub delivered: Option<Seq<u8>>,
}

/// One datagram with payload `d` received.
///
/// An empty datagram (a ping) changes nothing. Before a header, a datagram of
/// eight bytes or more announces the length of the next message in its first
/// eight bytes (big-endian); a shorter one is ignored. After a header, the
/// payload is appended, and once exactly the announced length is gathered the
/// message is delivered and the packet waits for the next header.
pub open spec fn recv_step(p: PacketModel, d: Seq<u8>) -> RecvStep {
    if d.len() == 0 {
        RecvStep { state: p, delivered: None }
    } else {
        match p.size {
            Some(ps) => {
                let nd = p.data + d;
                if nd.len() == ps {
                    RecvStep { state: fresh(), delivered: Some(nd) }
                } else {
                    RecvStep { state: PacketModel { size: Some(ps), data: nd }, delivered: None }
                }
            },
            None => if d.len() >= 8 {
                RecvStep {
                    state: PacketModel { size: Some(be_value(d.take(8)) as u64), data: p.data },
                    delivered: None,
                }
            } else {
                RecvStep { state: p, delivered: None }
            },
        }
    }
}

/// The payload of a datagram whose length is given as `size`, with `buffer`
/// holding the bytes that came: its first `size` bytes, or all of them where
/// `size` goes beyond the buffer.
pub open spec fn datagram(buffer: Seq<u8>, size: usize) -> Seq<u8> {
    if size <= buffer.len() {
        buffer.take(size as int)
    } else {
        buffer
    }
}

/// A message received, by its bytes.
pub open spec fn delivered_view(r: Option<Vec<u8>>) -> Option<Seq<u8>> {
    match r {
        Some(v) => Some(v@),
        None => None,
    }
}

/// Gathers the datagrams of a message until the whole message is there.
pub struct Packet {
    size_option: Option<u64>,
    data: Vec<u8>,
}

impl View for Packet {
    type V = PacketModel;

    closed spec fn view(&self) -> PacketModel {
        PacketModel { size: self.size_option, data: self.data@ }
    }
}

impl Packet {
    /// Nothing is gathered before a header came.
    #[verifier::type_invariant]
    spec fn inv(&self) -> bool {
        self.size_option is None ==> self.data@.len() == 0
    }

    /// A packet that waits for a header.
    pub fn new() -> (p: Packet)
        ensures
            p@ == fresh(),
    {
        Packet { size_option: None, data: Vec::new() }
    }

    /// Whether a header came, so that the next datagram is appended to the
    /// message.
    pub fn has_header(&self) -> (r: bool)
        ensures
            r == self@.size is Some,
    {
        self.size_option.is_some()
    }

    /// Takes one datagram: its first `size` bytes in `buffer`. Gives the message
    /// that it completes, if any. A length beyond the buffer is taken for the
    /// whole buffer, which only a packet that waits for a header accepts.
    pub fn recv(&mut self, size: usize, buffer: [u8; MAX_BUFFER_SIZE]) -> (r: Option<Vec<u8>>)
        requires
            old(self)@.size is Some ==> size <= MAX_BUFFER_SIZE,
        ensures
            final(self)@ == recv_step(old(self)@, datagram(buffer@, size)).state,
            delivered_view(r) == recv_step(old(self)@, datagram(buffer@, size)).delivered,
    {
        proof {
            use_type_invariant(&*self);
        }
        let ghost d = datagram(buffer@, size);
        if size > 0 {
            match self.size_option {
                Some(packet_size) => {
                    let mut piece = slice_to_vec(slice_subrange(buffer.as_slice(), 0, size));
                    assert(piece@ =~= d);
                    let mut data = Vec::new();
                    std::mem::swap(&mut data, &mut self.data);
                    data.append(&mut piece);
                    if data.len() as u64 == packet_size {
                        self.size_option = None;
                        return Some(data);
                    }
                    self.data = data;
                },
                None => {
                    if size >= 8 {
                        let header = be_u64_prefix(buffer.as_slice());
                        assert(buffer@.take(8) =~= d.take(8));
                        self.size_option = Some(header);
                    }
                },
            }
        }
        None
    }

    /// Drops what was gathered and waits for a new header.
    pub fn clear(&mut self)
        ensures
            final(self)@ == fresh(),
    {
        self.data = Vec::new();
        self.size_option = None;
    }
}

// ---------------------------------------------------------------------------
// Laws
// ---------------------------------------------------------------------------

/// A run of datagrams received one after another: the final packet and, for
/// each datagram, the message it completed.
pub open spec fn deliver(p: PacketModel, ds: Seq<Seq<u8>>) -> (PacketModel, Seq<Option<Seq<u8>>>)
    decreases ds.len(),
{
    if ds.len() == 0 {
        (p, seq![])
    } else {
        let st = recv_step(p, ds[0]);
        let (q, outs) = deliver(st.state, ds.drop_first());
        (q, seq![st.delivered] + outs)
    }
}

/// `n` datagrams that complete no message.
pub open spec fn nones(n: nat) -> Seq<Option<Seq<u8>>>
    decreases n,
{
    if n == 0 {
        seq![]
    } else {
        seq![None] + nones((n - 1) as nat)
    }
}

proof fn lemma_chunks_nonempty(m: Seq<u8>)
    requires
        m.len() > 0,
    ensures
        chunks(m).len() > 0,
{
}

proof fn lemma_pieces_delivered(size: u64, acc: Seq<u8>, rest: Seq<u8>)
    requires
        rest.len() > 0,
        acc.len() + rest.len() == size,
    ensures
        deliver(PacketModel { size: Some(size), data: acc }, chunks(rest)) == (fresh(), nones(
            (chunks(rest).len() - 1) as nat,
        ).push(Some(acc + rest))),
    decreases rest.len(),
{
    let p = PacketModel { size: Some(size), data: acc };
    let cs = chunks(rest);
    if rest.len() <= MAX_PACKET_SIZE {
        assert(cs =~= seq![rest]);
        assert(cs[0] == rest);
        assert(cs.drop_first() =~= Seq::<Seq<u8>>::empty());
        assert(recv_step(p, rest).state == fresh());
        assert(deliver(fresh(), Seq::<Seq<u8>>::empty()) == (fresh(), Seq::<Option<Seq<u8>>>::empty()));
        assert(nones(0).push(Some(acc + rest)) =~= seq![Some(acc + rest)]);
        assert(seq![Some(acc + rest)] + Seq::<Option<Seq<u8>>>::empty() =~= seq![Some(acc + rest)]);
    } else {
        let head = rest.take(MAX_PACKET_SIZE as int);
        let tail = rest.skip(MAX_PACKET_SIZE as int);
        assert(cs =~= seq![head] + chunks(tail));
        assert(cs[0] == head);
        assert(cs.drop_first() =~= chunks(tail));
        let nd = acc + head;
        assert(recv_step(p, head).state == PacketModel { size: Some(size), data: nd });
        assert(recv_step(p, head).delivered is None);
        lemma_pieces_delivered(size, nd, tail);
        assert(nd + tail =~= acc + rest);
        lemma_chunks_nonempty(tail);
        let k = (chunks(tail).len() - 1) as nat;
        assert(nones(k + 1) =~= seq![None] + nones(k));
        assert(seq![None] + nones(k).push(Some(acc + rest)) =~= nones(k + 1).push(
            Some(acc + rest),
        ));
    }
}

/// The datagrams that carry a non-empty message, received in order by a packet
/// that waits for a header, give the message back with the last datagram and
/// nothing before; the packet then waits for the next header.
pub proof fn law_frames_deliver_message(m: Seq<u8>)
    requires
        0 < m.len() <= u64::MAX,
    ensures
        deliver(fresh(), frames(m)) == (fresh(), nones((frames(m).len() - 1) as nat).push(
            Some(m),
        )),
{
    let n = m.len() as u64;
    lemma_be_roundtrip(n);
    let fs = frames(m);
    let h = be_bytes(m.len(), 8);
    assert(fs[0] == h);
    assert(h.take(8) =~= h);
    assert(fs.drop_first() =~= chunks(m));
    lemma_pieces_delivered(n, seq![], m);
    assert(Seq::<u8>::empty() + m =~= m);
    lemma_chunks_nonempty(m);
    let k = (chunks(m).len() - 1) as nat;
    assert(nones(k + 1) =~= seq![None] + nones(k));
    assert(seq![None] + nones(k).push(Some(m)) =~= nones(k + 1).push(Some(m)));
}

} // verus!
