//! The audio path to the controller: down-mixing captured frames to mono and
//! cutting the mono stream into numbered UDP packets of 512 samples.
use vstd::prelude::*;

verus! {

/// UDP port on which the controller receives audio.
pub const UDP_PORT: u16 = 5000;
/// Samples carried by one packet.
pub const SAMPLES_PER_PKT: usize = 512;
/// Marker at the start of every audio packet ("BP" little-endian).
pub const MAGIC: u16 = 0x5042;

/// The two little-endian bytes of a 16-bit word.
pub open spec fn word_bytes(w: u16) -> Seq<u8> {
    seq![(w % 256) as u8, (w / 256) as u8]
}

/// The two little-endian bytes of a sample (two's complement).
pub open spec fn sample_bytes(s: i16) -> Seq<u8> {
    word_bytes(s as u16)
}

/// The little-endian bytes of a run of samples.
pub open spec fn samples_bytes(s: Seq<i16>) -> Seq<u8>
    decreases s.len(),
{
    if s.len() == 0 {
        Seq::<u8>::empty()
    } else {
        samples_bytes(s.drop_last()) + sample_bytes(s.last())
    }
}

/// An audio packet: magic, sequence number, then the samples.
pub open spec fn packet_bytes(seq_no: u16, samples: Seq<i16>) -> Seq<u8> {
    word_bytes(MAGIC) + word_bytes(seq_no) + samples_bytes(samples)
}

/// The sequence number `k` packets after `start`, wrapping at 16 bits.
pub open spec fn seq_after(start: u16, k: int) -> u16 {
    ((start + k) % 65536) as u16
}

/// The `k`-th block of 512 samples of `s`.
pub open spec fn block(s: Seq<i16>, k: int) -> Seq<i16> {
    s.subrange(512 * k, 512 * k + 512)
}

/// Every packet is four header bytes and two bytes per sample: 1028 bytes
/// for a full block of 512.
pub proof fn lemma_packet_len(seq_no: u16, samples: Seq<i16>)
    ensures
        packet_bytes(seq_no, samples).len() == 4 + 2 * samples.len(),
    decreases samples.len(),
{
    if samples.len() > 0 {
        lemma_packet_len(seq_no, samples.drop_last());
    }
}

/// The packets sent when `mono` arrives with `pending` samples waiting and
/// `seq_no` next: one per complete block of 512 of the joined samples,
/// numbered on from `seq_no`.
pub open spec fn packets_for(pending: Seq<i16>, seq_no: u16, mono: Seq<i16>) -> Seq<Seq<u8>> {
    let all = pending + mono;
    Seq::new(all.len() / 512, |k: int| packet_bytes(seq_after(seq_no, k), block(all, k)))
}

/// The samples left waiting after `mono` arrives: those past the last
/// complete block.
pub open spec fn pending_after(pending: Seq<i16>, mono: Seq<i16>) -> Seq<i16> {
    let all = pending + mono;
    all.skip(512 * (all.len() / 512) as int)
}

/// The next sequence number after `mono` arrives.
pub open spec fn seq_after_push(pending: Seq<i16>, seq_no: u16, mono: Seq<i16>) -> u16 {
    seq_after(seq_no, ((pending + mono).len() / 512) as int)
}

/// Splitting the input does not change what is sent: feeding `a` then `b`
/// sends the same packets, in the same order and with the same numbers, and
/// leaves the same samples waiting, as feeding `a + b` at once. So every
/// captured sample goes out exactly once and in order, however the capture
/// callback chunks the stream.
pub proof fn lemma_push_split(pending: Seq<i16>, seq_no: u16, a: Seq<i16>, b: Seq<i16>)
    ensures
        packets_for(pending, seq_no, a + b) == packets_for(pending, seq_no, a) + packets_for(
            pending_after(pending, a),
            seq_after_push(pending, seq_no, a),
            b,
        ),
        pending_after(pending, a + b) == pending_after(pending_after(pending, a), b),
        seq_after_push(pending, seq_no, a + b) == seq_after_push(
            pending_after(pending, a),
            seq_after_push(pending, seq_no, a),
            b,
        ),
{
    let all_a = pending + a;
    let ca = (all_a.len() / 512) as int;
    let r = all_a.skip(512 * ca);
    let all2 = r + b;
    let all = pending + (a + b);
    let c2 = (all2.len() / 512) as int;
    let s1 = seq_after(seq_no, ca);
    assert(all =~= all_a.take(512 * ca) + all2);
    assert(all.len() == 512 * ca + all2.len());
    assert((all.len() / 512) as int == ca + c2) by (nonlinear_arith)
        requires
            all.len() == 512 * ca + all2.len(),
            c2 == all2.len() / 512,
            ca >= 0,
    ;
    let p = packets_for(pending, seq_no, a + b);
    let q = packets_for(pending, seq_no, a) + packets_for(r, s1, b);
    assert forall|k: int| 0 <= k < p.len() implies p[k] == q[k] by {
        if k < ca {
            assert(block(all, k) =~= block(all_a, k));
        } else {
            let k2 = k - ca;
            assert(block(all, k) =~= block(all2, k2));
            assert(seq_after(seq_no, k) == seq_after(s1, k2)) by (nonlinear_arith)
                requires
                    s1 == ((seq_no + ca) % 65536) as u16,
                    k == ca + k2,
                    ca >= 0,
                    k2 >= 0,
            ;
        }
    }
    assert(p =~= q);
    assert(all.skip(512 * (ca + c2)) =~= all2.skip(512 * c2));
    assert(seq_after(seq_no, ca + c2) == seq_after(s1, c2)) by (nonlinear_arith)
        requires
            s1 == ((seq_no + ca) % 65536) as u16,
            ca >= 0,
            c2 >= 0,
    ;
}

/// The samples of a run of capture callbacks, in order.
pub open spec fn joined(chunks: Seq<Seq<i16>>) -> Seq<i16>
    decreases chunks.len(),
{
    if chunks.len() == 0 {
        Seq::empty()
    } else {
        joined(chunks.drop_last()) + chunks.last()
    }
}

/// Feeding the capture callbacks `chunks` one by one, starting with
/// `pending` waiting and `seq_no` next: the packets sent, in order, the
/// samples left waiting, and the next sequence number.
pub open spec fn feed_all(pending: Seq<i16>, seq_no: u16, chunks: Seq<Seq<i16>>) -> (Seq<Seq<u8>>, Seq<i16>, u16)
    decreases chunks.len(),
{
    if chunks.len() == 0 {
        (Seq::empty(), pending, seq_no)
    } else {
        let (sent, rest, next) = feed_all(pending, seq_no, chunks.drop_last());
        let c = chunks.last();
        (sent + packets_for(rest, next, c), pending_after(rest, c), seq_after_push(rest, next, c))
    }
}

/// However many capture callbacks run and however they cut the stream, what
/// is sent is what one call with all their samples joined would send: packet
/// `k` carries samples `512 k .. 512 k + 512` of the stream with sequence
/// number `seq_no + k`, no sample is lost, repeated or reordered, and fewer
/// than 512 samples wait unsent.
pub proof fn lemma_feed_all(pending: Seq<i16>, seq_no: u16, chunks: Seq<Seq<i16>>)
    requires
        pending.len() < 512,
    ensures
        feed_all(pending, seq_no, chunks) == (
            packets_for(pending, seq_no, joined(chunks)),
            pending_after(pending, joined(chunks)),
            seq_after_push(pending, seq_no, joined(chunks)),
        ),
        feed_all(pending, seq_no, chunks).1.len() < 512,
    decreases chunks.len(),
{
    let all = pending + joined(chunks);
    if chunks.len() == 0 {
        assert(joined(chunks) =~= Seq::<i16>::empty());
        assert(all =~= pending);
        assert(packets_for(pending, seq_no, joined(chunks)) =~= Seq::<Seq<u8>>::empty());
        assert(pending_after(pending, joined(chunks)) =~= pending);
    } else {
        let front = chunks.drop_last();
        let c = chunks.last();
        lemma_feed_all(pending, seq_no, front);
        lemma_push_split(pending, seq_no, joined(front), c);
    }
    assert(all.len() - 512 * (all.len() / 512) < 512);
}

/// Encodes one packet.
pub fn encode_packet(seq_no: u16, samples: &[i16]) -> (out: Vec<u8>)
    ensures
        out@ == packet_bytes(seq_no, samples@),
{
    let mut out: Vec<u8> = Vec::new();
    out.push((MAGIC % 256) as u8);
    out.push((MAGIC / 256) as u8);
    out.push((seq_no % 256) as u8);
    out.push((seq_no / 256) as u8);
    let ghost head = out@;
    assert(head =~= word_bytes(MAGIC) + word_bytes(seq_no));
    let n = samples.len();
    let mut i: usize = 0;
    while i < n
        invariant
            n == samples@.len(),
            i <= n,
            head == word_bytes(MAGIC) + word_bytes(seq_no),
            out@ =~= head + samples_bytes(samples@.take(i as int)),
        decreases n - i,
    {
        let u: u16 = samples[i] as u16;
        out.push((u % 256) as u8);
        out.push((u / 256) as u8);
        proof {
            assert(samples@.take(i + 1).drop_last() =~= samples@.take(i as int));
        }
        i = i + 1;
    }
    assert(samples@.take(n as int) =~= samples@);
    out
}

/// Accumulates mono samples and cuts them into numbered packets.
pub struct AudioPacketizer {
    pending: Vec<i16>,
    next_seq: u16,
}

impl AudioPacketizer {
    /// Samples waiting for a packet to be filled.
    pub closed spec fn pending(&self) -> Seq<i16> {
        self.pending@
    }

    /// Sequence number of the next packet.
    pub closed spec fn next_seq(&self) -> u16 {
        self.next_seq
    }

    /// Well-formed: fewer than a packet's worth of samples wait.
    pub closed spec fn wf(&self) -> bool {
        self.pending@.len() < 512
    }

    /// A packetizer with nothing pending, numbering from 0.
    pub fn new() -> (out: Self)
        ensures
            out.wf(),
            out.pending() == Seq::<i16>::empty(),
            out.next_seq() == 0,
    {
        AudioPacketizer { pending: Vec::new(), next_seq: 0 }
    }

    /// Sequence number of the next packet.
    pub fn next_sequence(&self) -> (out: u16)
        ensures
            out == self.next_seq(),
    {
        self.next_seq
    }

    /// Number of samples waiting.
    pub fn pending_len(&self) -> (out: usize)
        ensures
            out == self.pending().len(),
    {
        self.pending.len()
    }

    /// Appends `mono` to the pending samples and returns a packet for every
    /// complete block of 512, numbered on from the current sequence number;
    /// the remainder stays pending.
    pub fn push_samples(&mut self, mono: &[i16]) -> (packets: Vec<Vec<u8>>)
        requires
            old(self).wf(),
            old(self).pending().len() + mono@.len() <= usize::MAX,
        ensures
            final(self).wf(),
            packets@.map_values(|p: Vec<u8>| p@) == packets_for(old(self).pending(), old(self).next_seq(), mono@),
            final(self).pending() == pending_after(old(self).pending(), mono@),
            final(self).next_seq() == seq_after_push(old(self).pending(), old(self).next_seq(), mono@),
    {
        let ghost start = self.next_seq;
        let mut all: Vec<i16> = Vec::new();
        let plen = self.pending.len();
        let mut i: usize = 0;
        while i < plen
            invariant
                plen == self.pending@.len(),
                i <= plen,
                all@ =~= self.pending@.take(i as int),
            decreases plen - i,
        {
            all.push(self.pending[i]);
            i = i + 1;
        }
        let mlen = mono.len();
        let mut j: usize = 0;
        while j < mlen
            invariant
                plen == self.pending@.len(),
                mlen == mono@.len(),
                j <= mlen,
                all@ =~= self.pending@ + mono@.take(j as int),
            decreases mlen - j,
        {
            all.push(mono[j]);
            j = j + 1;
        }
        assert(self.pending@.take(plen as int) =~= self.pending@);
        assert(mono@.take(mlen as int) =~= mono@);
        let total = all.len();
        let count = total / 512;
        let mut packets: Vec<Vec<u8>> = Vec::new();
        let mut k: usize = 0;
        let mut seq_no: u16 = self.next_seq;
        while k < count
            invariant
                total == all@.len(),
                count == total / 512,
                k <= count,
                packets@.len() == k,
                seq_no == seq_after(start, k as int),
                forall|q: int|
                    0 <= q < k ==> #[trigger] packets@[q]@ == packet_bytes(
                        seq_after(start, q),
                        block(all@, q),
                    ),
            decreases count - k,
        {
            let lo = k * 512;
            let chunk = vstd::slice::slice_subrange(all.as_slice(), lo, lo + 512);
            let packet = encode_packet(seq_no, chunk);
            packets.push(packet);
            seq_no = seq_no.wrapping_add(1);
            k = k + 1;
        }
        let mut rest: Vec<i16> = Vec::new();
        let mut r: usize = count * 512;
        let ghost from = (count * 512) as int;
        while r < total
            invariant
                total == all@.len(),
                0 <= from <= r <= total,
                rest@ =~= all@.subrange(from, r as int),
            decreases total - r,
        {
            rest.push(all[r]);
            r = r + 1;
        }
        self.pending = rest;
        self.next_seq = seq_no;
        assert(packets@.map_values(|p: Vec<u8>| p@) =~= packets_for(old(self).pending(), start, mono@));
        packets
    }
}

/// Sum of a run of samples.
pub open spec fn sample_sum(s: Seq<i16>) -> int
    decreases s.len(),
{
    if s.len() == 0 {
        0
    } else {
        sample_sum(s.drop_last()) + s.last()
    }
}

/// Integer division rounding toward zero, for a positive divisor.
pub open spec fn div_toward_zero(a: int, d: int) -> int {
    if a >= 0 {
        a / d
    } else {
        -((-a) / d)
    }
}

/// The `j`-th frame of interleaved audio with `c` channels (the last frame
/// may be short).
pub open spec fn frame_of(data: Seq<i16>, c: int, j: int) -> Seq<i16> {
    data.subrange(j * c, if j * c + c <= data.len() { j * c + c } else { data.len() as int })
}

/// `k` frames of `c` channels cover `len` samples, and no fewer do.
pub open spec fn is_frame_count(k: int, len: int, c: int) -> bool {
    &&& k * c >= len
    &&& (k == 0 || (k - 1) * c < len)
}

proof fn lemma_sample_sum_bounds(s: Seq<i16>)
    ensures
        -32768 * s.len() <= sample_sum(s) <= 32767 * s.len(),
    decreases s.len(),
{
    if s.len() > 0 {
        lemma_sample_sum_bounds(s.drop_last());
    }
}

proof fn lemma_avg_bounds(sum: int, c: int, m: int)
    requires
        1 <= m <= c,
        -32768 * m <= sum <= 32767 * m,
    ensures
        -32768 <= div_toward_zero(sum, c) <= 32767,
{
    if sum >= 0 {
        assert(sum / c <= 32767) by (nonlinear_arith)
            requires
                0 <= sum <= 32767 * m,
                1 <= m <= c,
        ;
    } else {
        assert((-sum) / c <= 32768) by (nonlinear_arith)
            requires
                0 < -sum <= 32768 * m,
                1 <= m <= c,
        ;
    }
}

/// Down-mixes interleaved 16-bit audio with `channels` channels to mono: each
/// output sample is the frame's sum divided by the channel count, rounded
/// toward zero.
pub fn downmix_i16(data: &[i16], channels: u16) -> (out: Vec<i16>)
    requires
        channels > 0,
    ensures
        is_frame_count(out@.len() as int, data@.len() as int, channels as int),
        forall|j: int|
            0 <= j < out@.len() ==> #[trigger] out@[j] == div_toward_zero(
                sample_sum(frame_of(data@, channels as int, j)),
                channels as int,
            ),
{
    let n = data.len();
    let c: usize = channels as usize;
    let mut out: Vec<i16> = Vec::new();
    let mut start: usize = 0;
    let mut j: usize = 0;
    while start < n
        invariant
            n == data@.len(),
            c == channels,
            1 <= c <= 65535,
            start <= j * c,
            start < n ==> start == j * c,
            j <= start <= n,
            j == 0 || (j - 1) * c < n,
            out@.len() == j,
            forall|q: int|
                0 <= q < j ==> #[trigger] out@[q] == div_toward_zero(
                    sample_sum(frame_of(data@, c as int, q)),
                    c as int,
                ),
        decreases n - start,
    {
        let end: usize = if n - start >= c { start + c } else { n };
        let mut sum: i32 = 0;
        let mut t: usize = start;
        while t < end
            invariant
                n == data@.len(),
                start <= t <= end <= n,
                end - start <= c,
                c <= 65535,
                sum == sample_sum(data@.subrange(start as int, t as int)),
            decreases end - t,
        {
            proof {
                lemma_sample_sum_bounds(data@.subrange(start as int, t as int));
                assert(data@.subrange(start as int, t + 1).drop_last() =~= data@.subrange(
                    start as int,
                    t as int,
                ));
            }
            sum = sum + data[t] as i32;
            t = t + 1;
        }
        let ghost frame = data@.subrange(start as int, end as int);
        assert(frame == frame_of(data@, c as int, j as int));
        proof {
            lemma_sample_sum_bounds(frame);
            lemma_avg_bounds(sum as int, c as int, (end - start) as int);
        }
        let avg: i32 = if sum >= 0 {
            ((sum as u32) / (c as u32)) as i32
        } else {
            -((((-sum) as u32) / (c as u32)) as i32)
        };
        out.push(avg as i16);
        proof {
            assert((j + 1) * c == j * c + c) by (nonlinear_arith);
        }
        start = end;
        j = j + 1;
    }
    proof {
        if j > 0 {
            assert((j - 1) * c + c == j * c) by (nonlinear_arith);
        }
    }
    out
}

/// An output device that can be captured, by its position in the host's
/// device list.
#[derive(Debug, Clone)]
pub struct AudioDevice {
    pub name: String,
    pub index: usize,
}

/// The devices listed from the host's device names in order, where a device
/// whose name could not be read is left out but still takes its position.
pub open spec fn listed_devices(names: Seq<Option<String>>) -> Seq<(Seq<char>, usize)>
    decreases names.len(),
{
    if names.len() == 0 {
        Seq::empty()
    } else {
        let rest = listed_devices(names.drop_last());
        match names.last() {
            Some(n) => rest.push((n@, (names.len() - 1) as usize)),
            None => rest,
        }
    }
}

/// The model of an [`AudioDevice`]: its name and position.
pub open spec fn device_model(d: AudioDevice) -> (Seq<char>, usize) {
    (d.name@, d.index)
}

/// Lists the capturable devices from the names the host reported, in order.
pub fn index_devices(names: Vec<Option<String>>) -> (out: Vec<AudioDevice>)
    ensures
        out@.map_values(|d: AudioDevice| device_model(d)) == listed_devices(names@),
{
    let n = names.len();
    let mut out: Vec<AudioDevice> = Vec::new();
    let mut i: usize = 0;
    while i < n
        invariant
            n == names@.len(),
            i <= n,
            out@.map_values(|d: AudioDevice| device_model(d)) == listed_devices(
                names@.take(i as int),
            ),
        decreases n - i,
    {
        proof {
            assert(names@.take(i + 1).drop_last() =~= names@.take(i as int));
        }
        match &names[i] {
            Some(name) => {
                out.push(AudioDevice { name: name.clone(), index: i });
            },
            None => {},
        }
        i = i + 1;
        assert(out@.map_values(|d: AudioDevice| device_model(d)) =~= listed_devices(
            names@.take(i as int),
        ));
    }
    assert(names@.take(n as int) =~= names@);
    out
}

/// The address audio packets go to: the controller's address, a colon, and
/// the audio port.
pub fn stream_target(ip: &str) -> (out: String)
    ensures
        out@ == ip@ + ":5000"@,
{
    let mut out = String::from_str(ip);
    out.append(":5000");
    out
}

} // verus!
