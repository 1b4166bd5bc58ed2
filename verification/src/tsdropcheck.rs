use vstd::prelude::*;

use crate::text::{decimal, hex4, pad2, push_char, push_decimal2, push_hex4};

verus! {

/// The fixed header of one 188-byte MPEG transport stream packet.
#[derive(Debug, Clone, Copy)]
pub struct TsHeader {
    pub sync_byte: u8,
    pub transport_error_indicator: bool,
    pub payload_unit_start_indicator: bool,
    pub transport_priority: bool,
    pub pid: u16,
    pub transport_scrambling_control: u8,
    pub adaptation_field_control: u8,
    pub continuity_counter: u8,
}

/// The header that the first four bytes of `p` describe.
///
/// Both two-bit control fields are read from bits 4 and 5 of the fourth byte.
pub open spec fn spec_ts_header(p: Seq<u8>) -> TsHeader {
    TsHeader {
        sync_byte: p[0],
        transport_error_indicator: (p[1] & 0x80) != 0,
        payload_unit_start_indicator: (p[1] & 0x40) != 0,
        transport_priority: (p[1] & 0x20) != 0,
        pid: (((p[1] & 0x1f) as u16) << 8u16) | (p[2] as u16),
        transport_scrambling_control: (p[3] & 0x30) >> 4u8,
        adaptation_field_control: (p[3] & 0x30) >> 4u8,
        continuity_counter: p[3] & 0x0f,
    }
}

/// Reads the packet header of a 188-byte packet.
pub fn parse_ts_header(packet: &[u8; 188]) -> (header: TsHeader)
    ensures
        header == spec_ts_header(packet@),
        header.pid < 0x2000,
        header.continuity_counter < 16,
        header.transport_scrambling_control < 4,
        header.adaptation_field_control == header.transport_scrambling_control,
{
    let b1 = packet[1];
    let b2 = packet[2];
    let b3 = packet[3];
    let pid: u16 = (((b1 & 0x1f) as u16) << 8u16) | (b2 as u16);
    assert((((b1 & 0x1f) as u16) << 8u16) | (b2 as u16) < 0x2000) by (bit_vector);
    assert(b3 & 0x0f < 16) by (bit_vector);
    assert((b3 & 0x30) >> 4u8 < 4) by (bit_vector);
    TsHeader {
        sync_byte: packet[0],
        transport_error_indicator: (b1 & 0x80) != 0,
        payload_unit_start_indicator: (b1 & 0x40) != 0,
        transport_priority: (b1 & 0x20) != 0,
        pid,
        transport_scrambling_control: (b3 & 0x30) >> 4u8,
        adaptation_field_control: (b3 & 0x30) >> 4u8,
        continuity_counter: b3 & 0x0f,
    }
}


/// The adaptation field of a packet, as far as it is read here.
#[derive(Debug, Clone, Copy)]
pub struct AdaptationField {
    pub length: u8,
    pub discontinuity_counter: u8,
    pub pcr_flag: bool,
    pub pcr: Option<u64>,
    pub splice_countdown: Option<u8>,
    pub random_access_indicator: bool,
}

/// The value of `AdaptationField::default()`: every field zero, false or absent.
pub open spec fn empty_adaptation_field() -> AdaptationField {
    AdaptationField {
        length: 0,
        discontinuity_counter: 0,
        pcr_flag: false,
        pcr: None,
        splice_countdown: None,
        random_access_indicator: false,
    }
}

impl Default for AdaptationField {
    fn default() -> (field: Self)
        ensures
            field == empty_adaptation_field(),
    {
        AdaptationField {
            length: 0,
            discontinuity_counter: 0,
            pcr_flag: false,
            pcr: None,
            splice_countdown: None,
            random_access_indicator: false,
        }
    }
}

/// The clock value read from the six bytes at `o` (and, where the packet holds them,
/// the three bytes after those).
///
/// The 33-bit base is assembled from `p[o..o+5]`, shifted left by 16 and combined with
/// a second part; the whole is shifted left by 15 in 64 bits (the top bits are lost)
/// and combined with the extension read from `p[o+6..o+9]`.
pub open spec fn spec_pcr(p: Seq<u8>, o: int) -> u64 {
    let high: u64 = ((p[o] as u64) << 25u64) | ((p[o + 1] as u64) << 17u64) | ((p[o + 2] as u64)
        << 9u64) | ((p[o + 3] as u64) << 1u64) | (((p[o + 4] as u64) & 0x80u64) >> 7u64);
    let low: u64 = (((p[o + 4] as u64) & 0x01u64) << 16u64) | (p[o + 5] as u64);
    let base: u64 = (high << 16u64) | low;
    let ext: u64 = if o + 9 <= p.len() {
        ((p[o + 6] as u64) << 15u64) | ((p[o + 7] as u64) << 7u64) | (((p[o + 8] as u64) & 0x80u64)
            >> 1u64)
    } else {
        0u64
    };
    (base << 15u64) | ext
}

/// One pass over the flag byte at `offset`: the field after it, the offset after
/// what was read.
pub open spec fn adaptation_step(p: Seq<u8>, offset: int, acc: AdaptationField) -> (
    AdaptationField,
    int,
) {
    let flag = p[offset];
    let o1 = offset + 1;
    let (a1, o2) = if flag & 0x80 != 0 && o1 + 6 <= p.len() {
        (AdaptationField { pcr: Some(spec_pcr(p, o1)), pcr_flag: true, ..acc }, o1 + 8)
    } else {
        (acc, o1)
    };
    let (a2, o3) = if flag & 0x40 != 0 && o2 + 1 <= p.len() {
        (AdaptationField { discontinuity_counter: p[o2], ..a1 }, o2 + 1)
    } else {
        (a1, o2)
    };
    let (a3, o4) = if flag & 0x20 != 0 && o3 + 1 <= p.len() {
        (AdaptationField { splice_countdown: Some(p[o3]), ..a2 }, o3 + 1)
    } else {
        (a2, o3)
    };
    let (a4, o5) = if flag & 0x10 != 0 && o4 + 1 <= p.len() {
        (
            if p[o4] & 0x80 != 0 {
                AdaptationField { random_access_indicator: true, ..a3 }
            } else {
                a3
            },
            o4 + 1,
        )
    } else {
        (a3, o4)
    };
    (a4, o5)
}

/// The field after reading flag bytes from `offset` on, while the offset stays below
/// both the packet's length and `limit`.
pub open spec fn adaptation_scan(p: Seq<u8>, offset: int, limit: int, acc: AdaptationField) -> AdaptationField
    decreases p.len() + 12 - offset,
{
    if 0 <= offset && offset < p.len() && offset < limit {
        let (a, next) = adaptation_step(p, offset, acc);
        proof {
            lemma_step_advances(p, offset, acc);
        }
        adaptation_scan(p, next, limit, a)
    } else {
        acc
    }
}

/// The adaptation field that `parse_adaptation_field` reads from `p` under `h`.
pub open spec fn spec_adaptation_field(p: Seq<u8>, h: TsHeader) -> Option<AdaptationField> {
    if h.adaptation_field_control != 2 && h.adaptation_field_control != 3 {
        None
    } else if p.len() < 5 || p[4] == 0 {
        None
    } else {
        Some(
            adaptation_scan(
                p,
                5,
                5 + p[4],
                AdaptationField { length: p[4], ..empty_adaptation_field() },
            ),
        )
    }
}

/// One pass over a flag byte reads at least that byte and at most 12.
pub proof fn lemma_step_advances(p: Seq<u8>, offset: int, acc: AdaptationField)
    requires
        0 <= offset < p.len(),
    ensures
        offset < adaptation_step(p, offset, acc).1 <= offset + 12,
{
}

fn read_pcr(packet: &[u8], o: usize) -> (pcr: u64)
    requires
        o + 6 <= packet@.len(),
        packet@.len() <= isize::MAX,
    ensures
        pcr == spec_pcr(packet@, o as int),
{
    let high: u64 = ((packet[o] as u64) << 25u64) | ((packet[o + 1] as u64) << 17u64) | ((packet[o
        + 2] as u64) << 9u64) | ((packet[o + 3] as u64) << 1u64) | (((packet[o + 4] as u64)
        & 0x80u64) >> 7u64);
    let low: u64 = (((packet[o + 4] as u64) & 0x01u64) << 16u64) | (packet[o + 5] as u64);
    let base: u64 = (high << 16u64) | low;
    let ext: u64 = if o + 9 <= packet.len() {
        ((packet[o + 6] as u64) << 15u64) | ((packet[o + 7] as u64) << 7u64) | (((packet[o + 8]
            as u64) & 0x80u64) >> 1u64)
    } else {
        0u64
    };
    (base << 15u64) | ext
}

/// Reads the adaptation field of a packet whose header is `header`.
///
/// `None` unless the adaptation field control is 2 or 3 and the field's length byte
/// (`packet[4]`) is present and not zero.
pub fn parse_adaptation_field(packet: &[u8], header: &TsHeader) -> (field: Option<AdaptationField>)
    requires
        packet@.len() <= isize::MAX,
    ensures
        field == spec_adaptation_field(packet@, *header),
        field is Some <==> ((header.adaptation_field_control == 2
            || header.adaptation_field_control == 3) && packet@.len() >= 5 && packet@[4] != 0),
        field matches Some(f) ==> f.length == packet@[4],
{
    if header.adaptation_field_control != 2 && header.adaptation_field_control != 3 {
        return None;
    }
    if packet.len() < 5 || packet[4] == 0 {
        return None;
    }
    let mut adapt = AdaptationField::default();
    let mut offset: usize = 5;
    adapt.length = packet[4];
    let ghost p = packet@;
    let ghost limit: int = 5 + packet@[4];
    assert(adapt == AdaptationField { length: p[4], ..empty_adaptation_field() });
    while offset < packet.len() && offset < 5 + adapt.length as usize
        invariant
            p == packet@,
            p.len() <= isize::MAX,
            5 <= offset <= p.len() + 11,
            limit == 5 + adapt.length,
            adapt.length == p[4],
            spec_adaptation_field(p, *header) == Some(adaptation_scan(p, offset as int, limit, adapt)),
        decreases p.len() + 12 - offset,
    {
        let ghost old_offset = offset as int;
        let ghost old_adapt = adapt;
        proof {
            lemma_step_advances(p, old_offset, old_adapt);
        }
        let flag = packet[offset];
        offset += 1;
        if flag & 0x80 != 0 && offset + 6 <= packet.len() {
            adapt.pcr = Some(read_pcr(packet, offset));
            adapt.pcr_flag = true;
            offset += 8;
        }
        if flag & 0x40 != 0 && offset + 1 <= packet.len() {
            adapt.discontinuity_counter = packet[offset];
            offset += 1;
        }
        if flag & 0x20 != 0 && offset + 1 <= packet.len() {
            adapt.splice_countdown = Some(packet[offset]);
            offset += 1;
        }
        if flag & 0x10 != 0 && offset + 1 <= packet.len() {
            if packet[offset] & 0x80 != 0 {
                adapt.random_access_indicator = true;
            }
            offset += 1;
        }
        assert(adaptation_step(p, old_offset, old_adapt) == (adapt, offset as int));
    }
    Some(adapt)
}

/// Per-PID counters of the drop check.
#[derive(Debug, Clone, Copy)]
pub struct PidStats {
    pub pid: u16,
    pub total_packets: u64,
    pub drop_count: u64,
    pub error_count: u64,
    pub scrambling_count: u64,
    pub last_continuity_counter: Option<u8>,
    pub last_packet: Option<[u8; 188]>,
    pub duplicate_count: u64,
}

/// What the drop check keeps for one PID, with the last packet taken by its bytes.
pub struct PidCounts {
    pub pid: u16,
    pub total_packets: u64,
    pub drop_count: u64,
    pub error_count: u64,
    pub scrambling_count: u64,
    pub last_continuity_counter: Option<u8>,
    pub last_packet: Option<Seq<u8>>,
    pub duplicate_count: u64,
}

impl View for PidStats {
    type V = PidCounts;

    open spec fn view(&self) -> PidCounts {
        PidCounts {
            pid: self.pid,
            total_packets: self.total_packets,
            drop_count: self.drop_count,
            error_count: self.error_count,
            scrambling_count: self.scrambling_count,
            last_continuity_counter: self.last_continuity_counter,
            last_packet: match self.last_packet {
                Some(p) => Some(p@),
                None => None,
            },
            duplicate_count: self.duplicate_count,
        }
    }
}

/// Counters for `pid` before any packet of it was seen.
pub open spec fn fresh_pid_counts(pid: u16) -> PidCounts {
    PidCounts {
        pid,
        total_packets: 0,
        drop_count: 0,
        error_count: 0,
        scrambling_count: 0,
        last_continuity_counter: None,
        last_packet: None,
        duplicate_count: 0,
    }
}

impl Default for PidStats {
    fn default() -> (stats: Self)
        ensures
            stats@ == fresh_pid_counts(0),
    {
        PidStats {
            pid: 0,
            total_packets: 0,
            drop_count: 0,
            error_count: 0,
            scrambling_count: 0,
            last_continuity_counter: None,
            last_packet: None,
            duplicate_count: 0,
        }
    }
}

/// Whether `check_drop` computes the successor of the stored continuity counter.
pub open spec fn drop_check_compares(stats: PidCounts, h: TsHeader, adapt: AdaptationField) -> bool {
    &&& h.pid != 0x1fff
    &&& h.adaptation_field_control != 0
    &&& h.adaptation_field_control != 2
    &&& adapt.discontinuity_counter == 0
    &&& stats.last_continuity_counter is Some
}

/// Whether `check_drop` counts `packet` as a duplicate: a repeat of the stored counter
/// with the same bytes as the last packet.
pub open spec fn check_drop_adds_duplicate(
    stats: PidCounts,
    h: TsHeader,
    adapt: AdaptationField,
    packet: Seq<u8>,
) -> bool {
    &&& drop_check_compares(stats, h, adapt)
    &&& h.continuity_counter != ((stats.last_continuity_counter->0 + 1) % 16) as u8
    &&& h.continuity_counter == stats.last_continuity_counter->0
    &&& stats.last_packet == Some(packet)
}

/// Whether `check_drop` counts a drop for `packet`.
pub open spec fn check_drop_adds_drop(
    stats: PidCounts,
    h: TsHeader,
    adapt: AdaptationField,
    packet: Seq<u8>,
) -> bool {
    ||| {
        &&& h.pid != 0x1fff
        &&& h.adaptation_field_control == 2
        &&& stats.last_continuity_counter is Some
        &&& stats.last_continuity_counter->0 != h.continuity_counter
    }
    ||| {
        &&& drop_check_compares(stats, h, adapt)
        &&& h.continuity_counter != ((stats.last_continuity_counter->0 + 1) % 16) as u8
        &&& (check_drop_adds_duplicate(stats, h, adapt, packet) ==> stats.duplicate_count >= 1)
    }
}

/// The counters after `check_drop` has seen `packet` with header `h` and adaptation
/// field `adapt`.
///
/// The null PID (0x1fff) and packets without payload or adaptation field leave the
/// counters alone. A packet with adaptation field only counts a drop when its counter
/// differs from the stored one. A set discontinuity indicator stores the counter and
/// checks nothing. Otherwise a counter that is not the successor (mod 16) of the stored
/// one is a drop, except a repeat of the stored counter with the same bytes as the last
/// packet, of which the first is tolerated as a duplicate.
pub open spec fn spec_check_drop(
    stats: PidCounts,
    h: TsHeader,
    adapt: AdaptationField,
    packet: Seq<u8>,
) -> PidCounts {
    if h.pid == 0x1fff || h.adaptation_field_control == 0 {
        stats
    } else if h.adaptation_field_control == 2 {
        match stats.last_continuity_counter {
            Some(last) => if last != h.continuity_counter {
                PidCounts { drop_count: (stats.drop_count + 1) as u64, ..stats }
            } else {
                stats
            },
            None => stats,
        }
    } else if adapt.discontinuity_counter != 0 {
        PidCounts { last_continuity_counter: Some(h.continuity_counter), ..stats }
    } else {
        let checked = match stats.last_continuity_counter {
            Some(last) => {
                let expected = ((last + 1) % 16) as u8;
                if h.continuity_counter != expected {
                    if h.continuity_counter == last {
                        if stats.last_packet matches Some(lp) && lp == packet {
                            let dup = (stats.duplicate_count + 1) as u64;
                            PidCounts {
                                duplicate_count: dup,
                                drop_count: if dup > 1 {
                                    (stats.drop_count + 1) as u64
                                } else {
                                    stats.drop_count
                                },
                                ..stats
                            }
                        } else {
                            PidCounts { drop_count: (stats.drop_count + 1) as u64, ..stats }
                        }
                    } else {
                        PidCounts { drop_count: (stats.drop_count + 1) as u64, ..stats }
                    }
                } else {
                    PidCounts { duplicate_count: 0, ..stats }
                }
            },
            None => stats,
        };
        PidCounts { last_continuity_counter: Some(h.continuity_counter), ..checked }
    }
}

/// The header fields are the bits of bytes 1 to 3 that the transport stream layout
/// gives them: the error indicator is the top bit of byte 1 (so byte 1 == 0x41 has no
/// error), the unit start and priority flags the next two bits, the PID the low five
/// bits of byte 1 followed by byte 2, both control fields bits 4 and 5 of byte 3 and the
/// continuity counter its low four bits.
pub proof fn law_header_bits(p: Seq<u8>)
    requires
        p.len() >= 4,
    ensures
        spec_ts_header(p).sync_byte == p[0],
        spec_ts_header(p).transport_error_indicator <==> p[1] >= 128,
        spec_ts_header(p).payload_unit_start_indicator <==> (p[1] / 64) % 2 == 1,
        spec_ts_header(p).transport_priority <==> (p[1] / 32) % 2 == 1,
        spec_ts_header(p).pid == (p[1] % 32) * 256 + p[2],
        spec_ts_header(p).adaptation_field_control == (p[3] / 16) % 4,
        spec_ts_header(p).transport_scrambling_control == (p[3] / 16) % 4,
        spec_ts_header(p).continuity_counter == p[3] % 16,
{
    let b1 = p[1];
    let b2 = p[2];
    let b3 = p[3];
    assert(((b1 & 0x80) != 0) == (b1 >= 128)) by (bit_vector);
    assert(((b1 & 0x40) != 0) == ((b1 / 64) % 2 == 1)) by (bit_vector);
    assert(((b1 & 0x20) != 0) == ((b1 / 32) % 2 == 1)) by (bit_vector);
    assert((((b1 & 0x1f) as u16) << 8u16) | (b2 as u16) == (b1 % 32) as u16 * 256 + b2 as u16)
        by (bit_vector);
    assert((b3 & 0x30) >> 4u8 == (b3 / 16) % 4) by (bit_vector);
    assert(b3 & 0x0f == b3 % 16) by (bit_vector);
}

/// What one packet does to the counters of its PID, for every PID other than the null
/// PID and every packet that carries a payload (adaptation field control 1 or 3):
/// - the null PID is never checked;
/// - a set discontinuity indicator stores the new counter and counts nothing;
/// - otherwise, after a stored counter `c`, the successor of `c` (wrapping from 15 to
///   0) is no drop, any counter other than `c` and its successor is exactly one drop,
///   a repeat of `c` with the bytes of the last packet is tolerated once (the second
///   such repeat in a row is a drop) and a repeat with other bytes is a drop;
/// - in every case the new counter is stored.
pub proof fn law_continuity_drops(stats: PidCounts, h: TsHeader, adapt: AdaptationField, packet: Seq<u8>)
    requires
        stats.drop_count < u64::MAX,
        stats.duplicate_count < u64::MAX,
        stats.last_continuity_counter matches Some(c) ==> c < 16,
        h.continuity_counter < 16,
    ensures
        h.pid == 0x1fff ==> spec_check_drop(stats, h, adapt, packet) == stats,
        (h.pid != 0x1fff && (h.adaptation_field_control == 1 || h.adaptation_field_control == 3)
            && adapt.discontinuity_counter != 0) ==> {
            let r = spec_check_drop(stats, h, adapt, packet);
            &&& r.drop_count == stats.drop_count
            &&& r.last_continuity_counter == Some(h.continuity_counter)
        },
        (h.pid != 0x1fff && (h.adaptation_field_control == 1 || h.adaptation_field_control == 3)
            && adapt.discontinuity_counter == 0 && stats.last_continuity_counter is Some) ==> {
            let r = spec_check_drop(stats, h, adapt, packet);
            let c = stats.last_continuity_counter->0;
            let successor = h.continuity_counter == c + 1 || (c == 15 && h.continuity_counter
                == 0);
            &&& r.last_continuity_counter == Some(h.continuity_counter)
            &&& successor ==> r.drop_count == stats.drop_count && r.duplicate_count == 0
            &&& (!successor && h.continuity_counter != c) ==> r.drop_count == stats.drop_count
                + 1
            &&& (h.continuity_counter == c && stats.last_packet != Some(packet)) ==> r.drop_count
                == stats.drop_count + 1
            &&& (h.continuity_counter == c && stats.last_packet == Some(packet)) ==> {
                &&& r.duplicate_count == stats.duplicate_count + 1
                &&& r.drop_count == (if stats.duplicate_count == 0 {
                    stats.drop_count
                } else {
                    (stats.drop_count + 1) as u64
                })
            }
        },
{
    if let Some(c) = stats.last_continuity_counter {
        if h.pid != 0x1fff && (h.adaptation_field_control == 1 || h.adaptation_field_control == 3)
            && adapt.discontinuity_counter == 0 {
            let r = spec_check_drop(stats, h, adapt, packet);
            let expected = ((c + 1) % 16) as u8;
            assert(expected == c + 1 || (c == 15 && expected == 0));
            assert(expected != c);
            let successor = h.continuity_counter == c + 1 || (c == 15 && h.continuity_counter == 0);
            assert(successor <==> h.continuity_counter == expected);
            if h.continuity_counter == c && stats.last_packet == Some(packet) {
                assert(stats.last_packet matches Some(lp) && lp == packet);
            }
            if h.continuity_counter == c && stats.last_packet != Some(packet) {
                assert(!(stats.last_packet matches Some(lp) && lp == packet));
            }
        }
    }
}

/// Whether two packets hold the same bytes.
pub fn same_packet(a: &[u8; 188], b: &[u8; 188]) -> (same: bool)
    ensures
        same == (a@ == b@),
{
    let mut i: usize = 0;
    while i < 188
        invariant
            i <= 188,
            forall|j: int| 0 <= j < i ==> a@[j] == b@[j],
        decreases 188 - i,
    {
        if a[i] != b[i] {
            return false;
        }
        i += 1;
    }
    assert(a@ =~= b@);
    true
}

/// Updates the drop counters of one PID with one packet.
pub fn check_drop(stats: &mut PidStats, header: &TsHeader, adapt: &AdaptationField, packet: &[u8; 188])
    requires
        drop_check_compares(old(stats)@, *header, *adapt) ==> old(stats).last_continuity_counter->0
            < 255,
        check_drop_adds_drop(old(stats)@, *header, *adapt, packet@) ==> old(stats).drop_count
            < u64::MAX,
        check_drop_adds_duplicate(old(stats)@, *header, *adapt, packet@) ==> old(
            stats,
        ).duplicate_count < u64::MAX,
    ensures
        final(stats)@ == spec_check_drop(old(stats)@, *header, *adapt, packet@),
        final(stats).last_continuity_counter == old(stats).last_continuity_counter
            || final(stats).last_continuity_counter == Some(header.continuity_counter),
        final(stats).pid == old(stats).pid,
        final(stats).total_packets == old(stats).total_packets,
        final(stats).error_count == old(stats).error_count,
        final(stats).scrambling_count == old(stats).scrambling_count,
        final(stats).last_packet == old(stats).last_packet,
        old(stats).drop_count <= final(stats).drop_count <= old(stats).drop_count + 1,
        final(stats).duplicate_count <= old(stats).duplicate_count + 1,
        header.pid == 0x1fff || header.adaptation_field_control == 0 ==> final(stats)@ == old(
            stats,
        )@,
        ((header.adaptation_field_control == 1 || header.adaptation_field_control == 3)
            && header.pid != 0x1fff && adapt.discontinuity_counter == 0
            && old(stats).last_continuity_counter is Some && header.continuity_counter == (old(
            stats,
        ).last_continuity_counter->0 + 1) % 16) ==> final(stats).drop_count == old(stats).drop_count
            && final(stats).duplicate_count == 0,
{
    if header.pid == 0x1fff {
        return;
    }
    if header.adaptation_field_control == 0 {
        return;
    }
    if header.adaptation_field_control == 2 {
        if let Some(last_cc) = stats.last_continuity_counter {
            if last_cc != header.continuity_counter {
                stats.drop_count += 1;
            }
        }
        return;
    }
    if adapt.discontinuity_counter != 0 {
        stats.last_continuity_counter = Some(header.continuity_counter);
        return;
    }
    if let Some(last_cc) = stats.last_continuity_counter {
        let expected = (last_cc + 1) & 0x0f;
        assert(last_cc < 255 ==> ((last_cc + 1) as u8) & 0x0f == ((last_cc + 1) % 16) as u8) by (bit_vector);
        if header.continuity_counter != expected {
            if header.continuity_counter == last_cc {
                let same = match &stats.last_packet {
                    Some(last) => same_packet(last, packet),
                    None => false,
                };
                proof {
                    if same {
                        assert(old(stats)@.last_packet == Some(packet@));
                    }
                }
                if same {
                    stats.duplicate_count += 1;
                    if stats.duplicate_count > 1 {
                        stats.drop_count += 1;
                    }
                } else {
                    stats.drop_count += 1;
                }
            } else {
                stats.drop_count += 1;
            }
        } else {
            stats.duplicate_count = 0;
        }
    }
    stats.last_continuity_counter = Some(header.continuity_counter);
}

/// `ticks` of the 90 kHz clock as `HH:MM:SS.CC`: hours, minutes, seconds and
/// hundredths, each padded to two digits (the hours may take more).
pub open spec fn clock_text(ticks: nat) -> Seq<char> {
    let total_seconds = ticks / 90000;
    pad2(decimal(total_seconds / 3600)) + seq![':'] + pad2(decimal((total_seconds % 3600) / 60))
        + seq![':'] + pad2(decimal(total_seconds % 60)) + seq!['.'] + pad2(
        decimal((ticks % 90000) * 100 / 90000),
    )
}

/// `00:00:00.00`.
pub open spec fn zero_clock_text() -> Seq<char> {
    seq!['0', '0', ':', '0', '0', ':', '0', '0', '.', '0', '0']
}

/// The ticks between two clock values: their difference when `end` is later, else the
/// distance through the wrap at 0x1ffffffff.
pub open spec fn pcr_span(start: u64, end: u64) -> nat {
    if end > start {
        (end - start) as nat
    } else {
        (0x1ffffffff - start + end) as nat
    }
}

/// What `duration_from_pcr` returns.
pub open spec fn spec_duration_from_pcr(start: Option<u64>, end: Option<u64>) -> Seq<char> {
    match (start, end) {
        (Some(s), Some(e)) => clock_text(pcr_span(s, e)),
        _ => zero_clock_text(),
    }
}

/// Whether `duration_from_pcr` can compute the span of `start` and `end`: a wrapped
/// span is only computed from a start at or below 0x1ffffffff.
pub open spec fn pcr_span_defined(start: Option<u64>, end: Option<u64>) -> bool {
    match (start, end) {
        (Some(s), Some(e)) => e > s || s <= 0x1ffffffff,
        _ => true,
    }
}

/// Appends `ticks` as `HH:MM:SS.CC` to `out`.
fn push_clock(out: &mut String, ticks: u64)
    ensures
        final(out)@ == old(out)@ + clock_text(ticks as nat),
{
    let total_seconds = ticks / 90000;
    let hours = total_seconds / 3600;
    let minutes = (total_seconds % 3600) / 60;
    let seconds = total_seconds % 60;
    let centiseconds = (ticks % 90000) * 100 / 90000;
    push_decimal2(out, hours);
    push_char(out, ':');
    push_decimal2(out, minutes);
    push_char(out, ':');
    push_decimal2(out, seconds);
    push_char(out, '.');
    push_decimal2(out, centiseconds);
    assert(old(out)@ + clock_text(ticks as nat) =~= out@);
}

/// The time between two program clock values as `HH:MM:SS.CC`; `00:00:00.00` when
/// either is missing.
pub fn duration_from_pcr(start: Option<u64>, end: Option<u64>) -> (text: String)
    requires
        pcr_span_defined(start, end),
    ensures
        text@ == spec_duration_from_pcr(start, end),
{
    let mut out = String::new();
    match (start, end) {
        (Some(s), Some(e)) => {
            let diff = if e > s {
                e - s
            } else {
                (0x1ffffffffu64 - s) + e
            };
            push_clock(&mut out, diff);
            assert(out@ =~= clock_text(pcr_span(s, e)));
        },
        _ => {
            push_clock(&mut out, 0);
            assert(decimal(0) == seq!['0']);
            assert(out@ =~= zero_clock_text());
        },
    }
    out
}

/// One transport error reported in verbose mode.
#[derive(Debug, Clone)]
pub struct ErrorDetail {
    pub time: String,
    pub packet_number: u64,
    pub pid: String,
    pub error_type: String,
}

/// The outcome of a drop check.
#[derive(Debug, Clone)]
pub struct DropCheckResult {
    pub total_packets: u64,
    pub total_bytes: u64,
    pub total_drops: u64,
    pub total_errors: u64,
    pub total_scrambling: u64,
    pub syncbyte_lost: u64,
    pub start_pcr: Option<u64>,
    pub end_pcr: Option<u64>,
    pub duration: String,
    pub check_time_ms: u64,
    pub pid_stats: Vec<PidStat>,
    pub details: Vec<ErrorDetail>,
}

/// The counters of one PID in a result.
#[derive(Debug, Clone)]
pub struct PidStat {
    pub pid: String,
    pub packets: u64,
    pub drops: u64,
    pub errors: u64,
    pub scrambling: u64,
}

/// How a drop check runs.
#[derive(Debug, Clone)]
pub struct CheckOptions {
    pub skip_seconds: u64,
    pub verbose: bool,
    pub limit: usize,
}

impl Default for CheckOptions {
    fn default() -> (options: Self)
        ensures
            options.skip_seconds == 0,
            !options.verbose,
            options.limit == 16,
    {
        CheckOptions { skip_seconds: 0, verbose: false, limit: 16 }
    }
}

/// `0x` and the PID in four lower-case hexadecimal digits.
pub open spec fn pid_text(pid: u16) -> Seq<char> {
    seq!['0', 'x'] + hex4(pid as nat)
}

/// `error`.
pub open spec fn error_type_text() -> Seq<char> {
    seq!['e', 'r', 'r', 'o', 'r']
}

/// Whether `d` reports a transport error in packet number `n` of PID `pid`.
pub open spec fn detail_reports(d: ErrorDetail, n: u64, pid: u16) -> bool {
    &&& d.time@ == zero_clock_text()
    &&& d.packet_number == n
    &&& d.pid@ == pid_text(pid)
    &&& d.error_type@ == error_type_text()
}

/// Whether `r` gives the counters `c` of one PID.
pub open spec fn stat_reports(r: PidStat, c: PidCounts) -> bool {
    &&& r.pid@ == pid_text(c.pid)
    &&& r.packets == c.total_packets
    &&& r.drops == c.drop_count
    &&& r.errors == c.error_count
    &&& r.scrambling == c.scrambling_count
}

/// The state of a drop check between two chunks of input.
pub struct DropCheckState {
    /// The counters of each PID seen, in the order in which the PIDs first occurred.
    pub stats: Seq<PidCounts>,
    /// Packet number and PID of each transport error reported.
    pub details: Seq<(u64, u16)>,
    pub packet_number: nat,
    pub total_bytes: nat,
    pub syncbyte_lost: nat,
    pub start_pcr: Option<u64>,
    pub end_pcr: Option<u64>,
}

/// The state before any input.
pub open spec fn initial_check_state() -> DropCheckState {
    DropCheckState {
        stats: Seq::empty(),
        details: Seq::empty(),
        packet_number: 0,
        total_bytes: 0,
        syncbyte_lost: 0,
        start_pcr: None,
        end_pcr: None,
    }
}

/// The clock text of a span of `h` hours, `m` minutes, `s` seconds and `r` further
/// ticks (under one second) shows exactly those hours, minutes and seconds, and the
/// hundredths of a second that `r` fills completely.
pub proof fn law_clock_text_fields(h: nat, m: nat, s: nat, cs: nat, r: nat)
    requires
        m < 60,
        s < 60,
        cs < 100,
        cs * 900 <= r < (cs + 1) * 900,
    ensures
        clock_text((h * 3600 + m * 60 + s) * 90000 + r) == pad2(decimal(h)) + seq![':'] + pad2(
            decimal(m),
        ) + seq![':'] + pad2(decimal(s)) + seq!['.'] + pad2(decimal(cs)),
{
    let total: int = (h * 3600 + m * 60 + s) as int;
    let ticks: int = total * 90000 + r as int;
    assert(r < 90000);
    vstd::arithmetic::div_mod::lemma_fundamental_div_mod_converse(ticks, 90000, total, r as int);
    vstd::arithmetic::div_mod::lemma_fundamental_div_mod_converse(
        total,
        3600,
        h as int,
        (m * 60 + s) as int,
    );
    vstd::arithmetic::div_mod::lemma_fundamental_div_mod_converse(
        (m * 60 + s) as int,
        60,
        m as int,
        s as int,
    );
    vstd::arithmetic::div_mod::lemma_fundamental_div_mod_converse(
        total,
        60,
        (h * 60 + m) as int,
        s as int,
    );
    vstd::arithmetic::div_mod::lemma_fundamental_div_mod_converse(
        (r * 100) as int,
        90000,
        cs as int,
        r * 100 - cs * 90000,
    );
}

/// A duration depends only on how far the end lies after the start: moving both clock
/// values by the same amount leaves it unchanged, so it is the duration from zero to
/// their difference.
pub proof fn law_duration_is_span(start: u64, end: u64, shift: u64)
    requires
        start < end,
        end + shift <= u64::MAX,
    ensures
        spec_duration_from_pcr(Some((start + shift) as u64), Some((end + shift) as u64))
            == spec_duration_from_pcr(Some(start), Some(end)),
        spec_duration_from_pcr(Some(start), Some(end)) == spec_duration_from_pcr(
            Some(0),
            Some((end - start) as u64),
        ),
{
}

/// The first index in `from..to` that holds the sync byte 0x47.
pub open spec fn next_sync(buf: Seq<u8>, from: int, to: int) -> Option<int>
    decreases to - from,
{
    if from >= to {
        None
    } else if buf[from] == 0x47 {
        Some(from)
    } else {
        next_sync(buf, from + 1, to)
    }
}

/// The index of the counters of `pid`, or the length of `stats` when it has none.
pub open spec fn pid_position(stats: Seq<PidCounts>, pid: u16) -> int {
    if exists|i: int| 0 <= i < stats.len() && stats[i].pid == pid {
        choose|i: int| 0 <= i < stats.len() && stats[i].pid == pid
    } else {
        stats.len() as int
    }
}

/// The counters of a PID after one more of its packets was counted.
pub open spec fn count_packet(c: PidCounts, h: TsHeader, adapt: AdaptationField, pkt: Seq<u8>) -> PidCounts {
    let c1 = PidCounts {
        pid: h.pid,
        total_packets: (c.total_packets + 1) as u64,
        error_count: if h.transport_error_indicator {
            (c.error_count + 1) as u64
        } else {
            c.error_count
        },
        ..c
    };
    let c2 = spec_check_drop(c1, h, adapt, pkt);
    PidCounts {
        scrambling_count: if h.transport_scrambling_control != 0 {
            (c2.scrambling_count + 1) as u64
        } else {
            c2.scrambling_count
        },
        last_packet: Some(pkt),
        ..c2
    }
}

/// The clock value that packet `pkt` carries, if any.
pub open spec fn packet_pcr(pkt: Seq<u8>) -> Option<u64> {
    match spec_adaptation_field(pkt, spec_ts_header(pkt)) {
        Some(f) => f.pcr,
        None => None,
    }
}

/// The state after one packet that starts with the sync byte.
///
/// A clock value in the packet becomes the end (and, first, also the start) of the
/// clock range. Packets whose clock value (0 without one) lies less than
/// `skip_seconds` seconds after the start are numbered but not counted. Otherwise the
/// packet's PID gets its counters (created at the end of the list on its first packet)
/// updated.
pub open spec fn packet_step(st: DropCheckState, pkt: Seq<u8>, options: CheckOptions) -> DropCheckState {
    let h = spec_ts_header(pkt);
    let adapt = spec_adaptation_field(pkt, h);
    let pcr = packet_pcr(pkt);
    let st1 = match pcr {
        Some(v) => DropCheckState {
            start_pcr: if st.start_pcr is Some {
                st.start_pcr
            } else {
                Some(v)
            },
            end_pcr: Some(v),
            ..st
        },
        None => st,
    };
    let current: int = match pcr {
        Some(v) => v as int,
        None => 0,
    };
    if st1.start_pcr matches Some(start) && current < start + options.skip_seconds * 90000 {
        DropCheckState { packet_number: st1.packet_number + 1, ..st1 }
    } else {
        let i = pid_position(st1.stats, h.pid);
        let stats1 = if i < st1.stats.len() {
            st1.stats
        } else {
            st1.stats.push(fresh_pid_counts(h.pid))
        };
        let a = match adapt {
            Some(f) => f,
            None => empty_adaptation_field(),
        };
        DropCheckState {
            stats: stats1.update(i, count_packet(stats1[i], h, a, pkt)),
            details: if h.transport_error_indicator && options.verbose {
                st1.details.push((st1.packet_number as u64, h.pid))
            } else {
                st1.details
            },
            packet_number: st1.packet_number + 1,
            ..st1
        }
    }
}

/// How verbose a check is changes only its list of error details: the counters after a
/// packet are the same in both modes, a quiet check lists no detail, and a verbose one
/// lists at most one more.
pub proof fn law_verbose_only_adds_details(
    st: DropCheckState,
    pkt: Seq<u8>,
    quiet: CheckOptions,
    verbose: CheckOptions,
)
    requires
        quiet.skip_seconds == verbose.skip_seconds,
        !quiet.verbose,
        verbose.verbose,
    ensures
        packet_step(st, pkt, quiet).stats == packet_step(st, pkt, verbose).stats,
        packet_step(st, pkt, quiet).packet_number == packet_step(st, pkt, verbose).packet_number,
        packet_step(st, pkt, quiet).details == st.details,
        packet_step(st, pkt, verbose).details.len() <= st.details.len() + 1,
{
}

/// A packet with the transport error indicator (the top bit of its second byte) set
/// adds one error when it is counted, in every mode, and no other packet adds an error:
/// the errors over all PIDs grow by the packets counted if the indicator is set, and
/// stay as they were otherwise.
pub proof fn law_error_indicator_counts_one_error(st: DropCheckState, pkt: Seq<u8>, options: CheckOptions)
    requires
        pkt.len() == 188,
        forall|i: int|
            0 <= i < st.stats.len() ==> (#[trigger] st.stats[i]).total_packets < u64::MAX
                && st.stats[i].error_count < u64::MAX,
    ensures
        ({
            let r = packet_step(st, pkt, options);
            &&& packets_total(st.stats) <= packets_total(r.stats) <= packets_total(st.stats) + 1
            &&& errors_total(r.stats) == errors_total(st.stats) + (if pkt[1] >= 128 {
                packets_total(r.stats) - packets_total(st.stats)
            } else {
                0
            })
        }),
{
    law_header_bits(pkt);
    let h = spec_ts_header(pkt);
    let r = packet_step(st, pkt, options);
    let pcr = packet_pcr(pkt);
    let st1 = match pcr {
        Some(v) => DropCheckState {
            start_pcr: if st.start_pcr is Some {
                st.start_pcr
            } else {
                Some(v)
            },
            end_pcr: Some(v),
            ..st
        },
        None => st,
    };
    let current: int = match pcr {
        Some(v) => v as int,
        None => 0,
    };
    if st1.start_pcr matches Some(start) && current < start + options.skip_seconds * 90000 {
        assert(r.stats == st.stats);
    } else {
        let i = pid_position(st1.stats, h.pid);
        let stats1 = if i < st1.stats.len() {
            st1.stats
        } else {
            st1.stats.push(fresh_pid_counts(h.pid))
        };
        let pf = |c: PidCounts| packets_of(c);
        let ef = |c: PidCounts| errors_of(c);
        if i < st1.stats.len() {
            assert(0 <= i) by {
                let k = choose|k: int| 0 <= k < st1.stats.len() && st1.stats[k].pid == h.pid;
            }
            assert(stats1[i].total_packets < u64::MAX);
        } else {
            lemma_sum_push(st1.stats, fresh_pid_counts(h.pid), pf);
            lemma_sum_push(st1.stats, fresh_pid_counts(h.pid), ef);
        }
        let a = match spec_adaptation_field(pkt, h) {
            Some(f) => f,
            None => empty_adaptation_field(),
        };
        let c = stats1[i];
        let x = count_packet(c, h, a, pkt);
        assert(x.total_packets == c.total_packets + 1);
        assert(x.error_count == c.error_count + (if h.transport_error_indicator {
            1int
        } else {
            0
        }));
        lemma_sum_update(stats1, i, x, pf);
        lemma_sum_update(stats1, i, x, ef);
        assert(r.stats == stats1.update(i, x));
    }
}

/// The index that `next_sync` finds holds the sync byte, and none before it does.
pub proof fn lemma_next_sync_range(buf: Seq<u8>, from: int, to: int)
    ensures
        next_sync(buf, from, to) matches Some(p) ==> from <= p < to && buf[p] == 0x47,
        next_sync(buf, from, to) is None ==> forall|j: int| from <= j < to ==> buf[j] != 0x47,
    decreases to - from,
{
    if from < to {
        lemma_next_sync_range(buf, from + 1, to);
    }
}

/// The state after scanning `buf` from `offset` on: 188-byte packets are taken while
/// they start with the sync byte; at another byte the scan resumes just after the next
/// sync byte among the 188 bytes from there, and stops, counting a lost sync, when
/// there is none. Fewer than 188 bytes at the end are left unread.
pub open spec fn scan_from(st: DropCheckState, buf: Seq<u8>, offset: int, options: CheckOptions) -> DropCheckState
    decreases buf.len() - offset,
{
    if offset < 0 || offset + 188 > buf.len() {
        st
    } else if buf[offset] != 0x47 {
        match next_sync(buf, offset, offset + 188) {
            Some(pos) => {
                proof {
                    lemma_next_sync_range(buf, offset, offset + 188);
                }
                scan_from(st, buf, pos + 1, options)
            },
            None => DropCheckState { syncbyte_lost: st.syncbyte_lost + 1, ..st },
        }
    } else {
        scan_from(packet_step(st, buf.subrange(offset, offset + 188), options), buf, offset + 188, options)
    }
}

/// The state after one chunk of input: its bytes are added to the byte count and the
/// chunk is scanned from its start.
pub open spec fn scan_chunk(st: DropCheckState, buf: Seq<u8>, options: CheckOptions) -> DropCheckState {
    scan_from(with_total_bytes(st, st.total_bytes + buf.len()), buf, 0, options)
}

/// Whether `buf` is a run of whole packets that each start with the sync byte.
pub open spec fn clean_packets(buf: Seq<u8>) -> bool {
    &&& buf.len() % 188 == 0
    &&& forall|k: int| 0 <= k < buf.len() / 188 ==> #[trigger] buf[188 * k] == 0x47
}

proof fn lemma_next_sync_shift(a: Seq<u8>, b: Seq<u8>, from: int, to: int)
    requires
        0 <= from,
        to <= b.len(),
    ensures
        next_sync(a + b, a.len() + from, a.len() + to) == (match next_sync(b, from, to) {
            Some(p) => Some(a.len() + p),
            None => None,
        }),
    decreases to - from,
{
    if from < to {
        assert((a + b)[a.len() + from] == b[from]);
        lemma_next_sync_shift(a, b, from + 1, to);
    }
}

proof fn lemma_scan_shift(st: DropCheckState, a: Seq<u8>, b: Seq<u8>, off: int, options: CheckOptions)
    requires
        0 <= off,
    ensures
        scan_from(st, a + b, a.len() + off, options) == scan_from(st, b, off, options),
    decreases b.len() - off,
{
    let ab = a + b;
    let o = a.len() + off;
    if off + 188 <= b.len() {
        assert(ab[o] == b[off]);
        if b[off] != 0x47 {
            lemma_next_sync_shift(a, b, off, off + 188);
            lemma_next_sync_range(b, off, off + 188);
            match next_sync(b, off, off + 188) {
                Some(p) => {
                    lemma_scan_shift(st, a, b, p + 1, options);
                },
                None => {},
            }
        } else {
            assert(ab.subrange(o, o + 188) =~= b.subrange(off, off + 188));
            lemma_scan_shift(
                packet_step(st, b.subrange(off, off + 188), options),
                a,
                b,
                off + 188,
                options,
            );
        }
    }
}

proof fn lemma_scan_clean_prefix(
    st: DropCheckState,
    a: Seq<u8>,
    b: Seq<u8>,
    j: int,
    options: CheckOptions,
)
    requires
        clean_packets(a),
        0 <= j <= a.len() / 188,
    ensures
        scan_from(st, a + b, 188 * j, options) == scan_from(
            scan_from(st, a, 188 * j, options),
            b,
            0,
            options,
        ),
        scan_from(st, a, 188 * j, options).packet_number == st.packet_number + a.len() / 188 - j,
    decreases a.len() / 188 - j,
{
    if j < a.len() / 188 {
        let ab = a + b;
        let o = 188 * j;
        assert(a[188 * j] == 0x47);
        assert(ab[o] == a[o]);
        assert(ab.subrange(o, o + 188) =~= a.subrange(o, o + 188));
        let next = packet_step(st, a.subrange(o, o + 188), options);
        lemma_scan_clean_prefix(next, a, b, j + 1, options);
        assert(188 * (j + 1) == o + 188);
    } else {
        assert(188 * j == a.len());
        lemma_scan_shift(st, a, b, 0, options);
    }
}

/// `st` with its byte count set to `t`.
pub open spec fn with_total_bytes(st: DropCheckState, t: nat) -> DropCheckState {
    DropCheckState { total_bytes: t, ..st }
}

proof fn lemma_scan_keeps_total_bytes(st: DropCheckState, buf: Seq<u8>, off: int, t: nat, options: CheckOptions)
    ensures
        scan_from(with_total_bytes(st, t), buf, off, options) == with_total_bytes(scan_from(st, buf, off, options), t),
    decreases buf.len() - off,
{
    let st2 = with_total_bytes(st, t);
    if 0 <= off && off + 188 <= buf.len() {
        if buf[off] != 0x47 {
            lemma_next_sync_range(buf, off, off + 188);
            match next_sync(buf, off, off + 188) {
                Some(p) => {
                    lemma_scan_keeps_total_bytes(st, buf, p + 1, t, options);
                },
                None => {},
            }
        } else {
            let pkt = buf.subrange(off, off + 188);
            assert(packet_step(st2, pkt, options) == with_total_bytes(packet_step(st, pkt, options), t));
            lemma_scan_keeps_total_bytes(packet_step(st, pkt, options), buf, off + 188, t, options);
        }
    }
}

/// Reading a stream in chunks gives what reading it at once gives, as long as each chunk
/// but the last is a run of whole packets that start with the sync byte.
pub proof fn law_clean_chunks_compose(st: DropCheckState, a: Seq<u8>, b: Seq<u8>, options: CheckOptions)
    requires
        clean_packets(a),
    ensures
        scan_chunk(scan_chunk(st, a, options), b, options) == scan_chunk(st, a + b, options),
{
    let whole = with_total_bytes(st, st.total_bytes + (a + b).len());
    let first = with_total_bytes(st, st.total_bytes + a.len());
    lemma_scan_clean_prefix(whole, a, b, 0, options);
    lemma_scan_keeps_total_bytes(first, a, 0, st.total_bytes + a.len() + b.len(), options);
    let s1 = scan_from(first, a, 0, options);
    assert(scan_from(whole, a, 0, options) == with_total_bytes(s1, s1.total_bytes + b.len())) by {
        assert(with_total_bytes(first, st.total_bytes + a.len() + b.len()) == whole);
        lemma_scan_keeps_total_bytes(st, a, 0, st.total_bytes + a.len(), options);
    }
}

/// Each whole packet of a clean run is numbered: reading `n` such packets adds `n` to
/// the packet number.
pub proof fn law_clean_packets_are_numbered(st: DropCheckState, a: Seq<u8>, options: CheckOptions)
    requires
        clean_packets(a),
    ensures
        scan_chunk(st, a, options).packet_number == st.packet_number + a.len() / 188,
{
    lemma_scan_clean_prefix(
        with_total_bytes(st, st.total_bytes + a.len()),
        a,
        Seq::empty(),
        0,
        options,
    );
}

/// The sum of `f` over the counters in `s`.
pub open spec fn sum_counts(s: Seq<PidCounts>, f: spec_fn(PidCounts) -> nat) -> nat
    decreases s.len(),
{
    if s.len() == 0 {
        0
    } else {
        sum_counts(s.drop_last(), f) + f(s.last())
    }
}

pub open spec fn packets_of(c: PidCounts) -> nat {
    c.total_packets as nat
}

pub open spec fn drops_of(c: PidCounts) -> nat {
    c.drop_count as nat
}

pub open spec fn errors_of(c: PidCounts) -> nat {
    c.error_count as nat
}

pub open spec fn scrambling_of(c: PidCounts) -> nat {
    c.scrambling_count as nat
}

proof fn lemma_sum_push(s: Seq<PidCounts>, x: PidCounts, f: spec_fn(PidCounts) -> nat)
    ensures
        sum_counts(s.push(x), f) == sum_counts(s, f) + f(x),
{
    assert(s.push(x).drop_last() =~= s);
}

proof fn lemma_sum_update(s: Seq<PidCounts>, i: int, x: PidCounts, f: spec_fn(PidCounts) -> nat)
    requires
        0 <= i < s.len(),
    ensures
        sum_counts(s.update(i, x), f) + f(s[i]) == sum_counts(s, f) + f(x),
    decreases s.len(),
{
    if i == s.len() - 1 {
        assert(s.update(i, x).drop_last() =~= s.drop_last());
    } else {
        lemma_sum_update(s.drop_last(), i, x, f);
        assert(s.update(i, x).drop_last() =~= s.drop_last().update(i, x));
    }
}

proof fn lemma_sum_elem(s: Seq<PidCounts>, i: int, f: spec_fn(PidCounts) -> nat)
    requires
        0 <= i < s.len(),
    ensures
        f(s[i]) <= sum_counts(s, f),
    decreases s.len(),
{
    if i < s.len() - 1 {
        lemma_sum_elem(s.drop_last(), i, f);
    }
}

proof fn lemma_sum_le(s: Seq<PidCounts>, f: spec_fn(PidCounts) -> nat, g: spec_fn(PidCounts) -> nat)
    requires
        forall|i: int| 0 <= i < s.len() ==> f(s[i]) <= g(s[i]),
    ensures
        sum_counts(s, f) <= sum_counts(s, g),
    decreases s.len(),
{
    if s.len() > 0 {
        lemma_sum_le(s.drop_last(), f, g);
    }
}

/// The packets counted over all PIDs.
pub open spec fn packets_total(s: Seq<PidCounts>) -> nat {
    sum_counts(s, |c: PidCounts| packets_of(c))
}

/// The drops counted over all PIDs.
pub open spec fn drops_total(s: Seq<PidCounts>) -> nat {
    sum_counts(s, |c: PidCounts| drops_of(c))
}

/// The transport errors counted over all PIDs.
pub open spec fn errors_total(s: Seq<PidCounts>) -> nat {
    sum_counts(s, |c: PidCounts| errors_of(c))
}

/// The scrambled packets counted over all PIDs.
pub open spec fn scrambling_total(s: Seq<PidCounts>) -> nat {
    sum_counts(s, |c: PidCounts| scrambling_of(c))
}

proof fn lemma_sum_prefix(s: Seq<PidCounts>, i: int, f: spec_fn(PidCounts) -> nat)
    requires
        0 <= i < s.len(),
    ensures
        sum_counts(s.take(i + 1), f) == sum_counts(s.take(i), f) + f(s[i]),
{
    assert(s.take(i + 1).drop_last() =~= s.take(i));
}

proof fn lemma_sum_prefix_le(s: Seq<PidCounts>, i: int, f: spec_fn(PidCounts) -> nat)
    requires
        0 <= i <= s.len(),
    ensures
        sum_counts(s.take(i), f) <= sum_counts(s, f),
    decreases s.len() - i,
{
    if i < s.len() {
        lemma_sum_prefix(s, i, f);
        lemma_sum_prefix_le(s, i + 1, f);
    } else {
        assert(s.take(i) =~= s);
    }
}

/// Whether the counters of one PID stay within its packet count.
pub open spec fn counts_bounded(c: PidCounts) -> bool {
    &&& c.drop_count <= c.total_packets
    &&& c.duplicate_count <= c.total_packets
    &&& c.error_count <= c.total_packets
    &&& c.scrambling_count <= c.total_packets
    &&& c.last_continuity_counter matches Some(cc) ==> cc < 16
}

/// A drop check in progress: it takes the input chunk by chunk and gives the result at
/// the end.
pub struct DropChecker {
    options: CheckOptions,
    stats: Vec<PidStats>,
    details: Vec<ErrorDetail>,
    reported: Ghost<Seq<(u64, u16)>>,
    packet_number: u64,
    total_bytes: u64,
    syncbyte_lost: u64,
    start_pcr: Option<u64>,
    end_pcr: Option<u64>,
}

impl View for DropChecker {
    type V = DropCheckState;

    closed spec fn view(&self) -> DropCheckState {
        DropCheckState {
            stats: self.stats@.map_values(|p: PidStats| p@),
            details: self.reported@,
            packet_number: self.packet_number as nat,
            total_bytes: self.total_bytes as nat,
            syncbyte_lost: self.syncbyte_lost as nat,
            start_pcr: self.start_pcr,
            end_pcr: self.end_pcr,
        }
    }
}

impl DropChecker {
    /// The options that the check runs with.
    pub closed spec fn options(&self) -> CheckOptions {
        self.options
    }

    /// The internal invariant of a check.
    pub closed spec fn wf(&self) -> bool {
        let counts = self.stats@.map_values(|p: PidStats| p@);
        &&& forall|i: int, j: int|
            0 <= i < j < counts.len() ==> #[trigger] counts[i].pid != #[trigger] counts[j].pid
        &&& forall|i: int| 0 <= i < counts.len() ==> counts_bounded(#[trigger] counts[i])
        &&& forall|i: int| 0 <= i < counts.len() ==> #[trigger] counts[i].pid < 0x2000
        &&& (self.start_pcr is Some <==> self.end_pcr is Some)
        &&& (!self.options.verbose ==> self.reported@.len() == 0)
        &&& packets_total(counts) <= self.packet_number
        &&& self.syncbyte_lost <= self.total_bytes
        &&& self.packet_number <= self.total_bytes
        &&& self.options.skip_seconds * 90000 <= u64::MAX
        &&& self.details@.len() == self.reported@.len()
        &&& forall|i: int|
            0 <= i < self.details@.len() ==> detail_reports(
                #[trigger] self.details@[i],
                self.reported@[i].0,
                self.reported@[i].1,
            )
    }

    /// A check that has seen no input yet.
    pub fn new(options: CheckOptions) -> (checker: Self)
        requires
            options.skip_seconds * 90000 <= u64::MAX,
        ensures
            checker.wf(),
            checker@ == initial_check_state(),
            checker.options() == options,
    {
        let checker = DropChecker {
            options,
            stats: Vec::new(),
            details: Vec::new(),
            reported: Ghost(Seq::empty()),
            packet_number: 0,
            total_bytes: 0,
            syncbyte_lost: 0,
            start_pcr: None,
            end_pcr: None,
        };
        assert(checker@.stats =~= Seq::<PidCounts>::empty());
        checker
    }

    /// The bytes taken so far.
    pub fn total_bytes(&self) -> (n: u64)
        ensures
            n == self@.total_bytes,
    {
        self.total_bytes
    }

    /// The first and the last clock value seen so far.
    pub fn pcr_range(&self) -> (range: (Option<u64>, Option<u64>))
        ensures
            range == (self@.start_pcr, self@.end_pcr),
    {
        (self.start_pcr, self.end_pcr)
    }

    /// Takes the next chunk of input.
    ///
    /// Packets that cross the end of the chunk are not read; a chunk in which the sync
    /// is lost is read no further.
    pub fn feed(&mut self, chunk: &[u8])
        requires
            old(self).wf(),
            old(self)@.total_bytes + chunk@.len() <= u64::MAX,
        ensures
            final(self).wf(),
            final(self)@ == scan_chunk(old(self)@, chunk@, old(self).options()),
            final(self).options() == old(self).options(),
            final(self)@.total_bytes == old(self)@.total_bytes + chunk@.len(),
            old(self)@.syncbyte_lost <= final(self)@.syncbyte_lost <= old(self)@.syncbyte_lost + 1,
            old(self)@.packet_number <= final(self)@.packet_number,
    {
        let ghost options = self.options;
        let ghost target = scan_chunk(self@, chunk@, options);
        let ghost lost0 = self.syncbyte_lost;
        let ghost bytes0 = self.total_bytes;
        let ghost number0 = self.packet_number;
        self.total_bytes += chunk.len() as u64;
        let mut offset: usize = 0;
        let mut lost = false;
        while !lost && offset <= chunk.len() && chunk.len() - offset >= 188
            invariant
                self.wf(),
                self.options == options,
                offset <= chunk@.len(),
                self.total_bytes == bytes0 + chunk@.len(),
                lost0 <= bytes0,
                lost ==> self@ == target,
                !lost ==> scan_from(self@, chunk@, offset as int, options) == target,
                !lost ==> self.syncbyte_lost == lost0,
                lost ==> self.syncbyte_lost == lost0 + 1,
                number0 <= bytes0,
                self.packet_number <= number0 + offset,
                bytes0 + chunk@.len() <= u64::MAX,
                old(self).packet_number == number0,
                number0 <= self.packet_number,
            decreases chunk@.len() - offset + (if lost {
                0int
            } else {
                1int
            }),
        {
            proof {
                lemma_next_sync_range(chunk@, offset as int, offset + 188);
            }
            if chunk[offset] != 0x47 {
                match find_sync(chunk, offset) {
                    Some(pos) => {
                        offset = pos + 1;
                    },
                    None => {
                        self.syncbyte_lost += 1;
                        lost = true;
                    },
                }
            } else {
                let packet = copy_packet(chunk, offset);
                self.process_packet(&packet);
                offset += 188;
            }
        }
    }

    /// The result of the check, which took `check_time_ms` milliseconds.
    ///
    /// The PIDs come in the order in which they first occurred.
    pub fn finish(self, check_time_ms: u64) -> (result: DropCheckResult)
        requires
            self.wf(),
            pcr_span_defined(self@.start_pcr, self@.end_pcr),
        ensures
            result.total_packets == self@.packet_number,
            result.total_bytes == self@.total_bytes,
            result.total_drops == drops_total(self@.stats),
            result.total_errors == errors_total(self@.stats),
            result.total_scrambling == scrambling_total(self@.stats),
            result.syncbyte_lost == self@.syncbyte_lost,
            result.start_pcr == self@.start_pcr,
            result.end_pcr == self@.end_pcr,
            result.duration@ == spec_duration_from_pcr(self@.start_pcr, self@.end_pcr),
            result.check_time_ms == check_time_ms,
            result.total_drops <= result.total_packets,
            result.total_errors <= result.total_packets,
            result.total_scrambling <= result.total_packets,
            packets_total(self@.stats) <= result.total_packets,
            forall|i: int, j: int|
                0 <= i < j < self@.stats.len() ==> #[trigger] self@.stats[i].pid
                    != #[trigger] self@.stats[j].pid,
            forall|i: int| 0 <= i < self@.stats.len() ==> #[trigger] self@.stats[i].pid < 0x2000,
            result.start_pcr is Some <==> result.end_pcr is Some,
            !self.options().verbose ==> result.details@.len() == 0,
            result.pid_stats@.len() == self@.stats.len(),
            forall|i: int|
                0 <= i < self@.stats.len() ==> stat_reports(
                    #[trigger] result.pid_stats@[i],
                    self@.stats[i],
                ),
            result.details@.len() == self@.details.len(),
            forall|i: int|
                0 <= i < self@.details.len() ==> detail_reports(
                    #[trigger] result.details@[i],
                    self@.details[i].0,
                    self@.details[i].1,
                ),
    {
        let ghost counts = self@.stats;
        let mut pid_stats: Vec<PidStat> = Vec::new();
        let mut total_drops: u64 = 0;
        let mut total_errors: u64 = 0;
        let mut total_scrambling: u64 = 0;
        let mut i: usize = 0;
        while i < self.stats.len()
            invariant
                self.wf(),
                counts == self@.stats,
                counts.len() == self.stats@.len(),
                i <= counts.len(),
                pid_stats@.len() == i,
                forall|j: int| 0 <= j < i ==> stat_reports(#[trigger] pid_stats@[j], counts[j]),
                total_drops == drops_total(counts.take(i as int)),
                total_errors == errors_total(counts.take(i as int)),
                total_scrambling == scrambling_total(counts.take(i as int)),
            decreases counts.len() - i,
        {
            let st = self.stats[i];
            assert(st@ == counts[i as int]);
            proof {
                let t = counts.take(i as int + 1);
                lemma_sum_prefix(counts, i as int, |c: PidCounts| drops_of(c));
                lemma_sum_prefix(counts, i as int, |c: PidCounts| errors_of(c));
                lemma_sum_prefix(counts, i as int, |c: PidCounts| scrambling_of(c));
                lemma_sum_prefix_le(counts, i as int + 1, |c: PidCounts| packets_of(c));
                assert forall|j: int| 0 <= j < t.len() implies drops_of(t[j]) <= packets_of(t[j])
                    && errors_of(t[j]) <= packets_of(t[j]) && scrambling_of(t[j]) <= packets_of(
                    t[j],
                ) by {
                    assert(counts_bounded(counts[j]));
                }
                lemma_sum_le(t, |c: PidCounts| drops_of(c), |c: PidCounts| packets_of(c));
                lemma_sum_le(t, |c: PidCounts| errors_of(c), |c: PidCounts| packets_of(c));
                lemma_sum_le(t, |c: PidCounts| scrambling_of(c), |c: PidCounts| packets_of(c));
            }
            total_drops += st.drop_count;
            total_errors += st.error_count;
            total_scrambling += st.scrambling_count;
            pid_stats.push(
                PidStat {
                    pid: pid_string(st.pid),
                    packets: st.total_packets,
                    drops: st.drop_count,
                    errors: st.error_count,
                    scrambling: st.scrambling_count,
                },
            );
            i += 1;
        }
        assert(counts.take(counts.len() as int) =~= counts);
        proof {
            assert forall|j: int| 0 <= j < counts.len() implies drops_of(counts[j]) <= packets_of(
                counts[j],
            ) && errors_of(counts[j]) <= packets_of(counts[j]) && scrambling_of(counts[j])
                <= packets_of(counts[j]) by {
                assert(counts_bounded(counts[j]));
            }
            lemma_sum_le(counts, |c: PidCounts| drops_of(c), |c: PidCounts| packets_of(c));
            lemma_sum_le(counts, |c: PidCounts| errors_of(c), |c: PidCounts| packets_of(c));
            lemma_sum_le(counts, |c: PidCounts| scrambling_of(c), |c: PidCounts| packets_of(c));
        }
        let duration = duration_from_pcr(self.start_pcr, self.end_pcr);
        DropCheckResult {
            total_packets: self.packet_number,
            total_bytes: self.total_bytes,
            total_drops,
            total_errors,
            total_scrambling,
            syncbyte_lost: self.syncbyte_lost,
            start_pcr: self.start_pcr,
            end_pcr: self.end_pcr,
            duration,
            check_time_ms,
            pid_stats,
            details: self.details,
        }
    }

    /// The index of the counters of `pid`, added at the end when there are none yet.
    fn slot_for(&mut self, pid: u16) -> (i: usize)
        requires
            old(self).wf(),
            pid < 0x2000,
        ensures
            final(self).wf(),
            i == pid_position(old(self)@.stats, pid),
            final(self)@ == (if i < old(self)@.stats.len() {
                old(self)@
            } else {
                DropCheckState { stats: old(self)@.stats.push(fresh_pid_counts(pid)), ..old(self)@ }
            }),
            final(self).options == old(self).options,
            i < final(self)@.stats.len(),
            final(self).stats@.len() == final(self)@.stats.len(),
    {
        let ghost counts = self@.stats;
        let mut i: usize = 0;
        while i < self.stats.len()
            invariant
                *self == *old(self),
                self.wf(),
                counts == self@.stats,
                counts.len() == self.stats@.len(),
                i <= self.stats@.len(),
                forall|j: int| 0 <= j < i ==> counts[j].pid != pid,
            decreases self.stats@.len() - i,
        {
            if self.stats[i].pid == pid {
                proof {
                    assert(counts[i as int].pid == pid);
                    let k = choose|k: int| 0 <= k < counts.len() && counts[k].pid == pid;
                    assert(k == i) by {
                        if k < i {
                        } else if k > i {
                            assert(counts[i as int].pid != counts[k].pid);
                        }
                    }
                }
                return i;
            }
            i += 1;
        }
        let mut fresh = PidStats::default();
        fresh.pid = pid;
        self.stats.push(fresh);
        proof {
            let new_counts = self.stats@.map_values(|p: PidStats| p@);
            assert(new_counts =~= counts.push(fresh_pid_counts(pid)));
            lemma_sum_push(counts, fresh_pid_counts(pid), |c: PidCounts| packets_of(c));
        }
        i
    }

    /// Counts one packet that starts with the sync byte.
    fn process_packet(&mut self, packet: &[u8; 188])
        requires
            old(self).wf(),
            old(self).packet_number < old(self).total_bytes,
        ensures
            final(self).wf(),
            final(self)@ == packet_step(old(self)@, packet@, old(self).options),
            final(self).options == old(self).options,
    {
        let ghost st0 = self@;
        let header = parse_ts_header(packet);
        let adapt = parse_adaptation_field(packet.as_slice(), &header);
        let pcr: Option<u64> = match &adapt {
            Some(a) => a.pcr,
            None => None,
        };
        if let Some(v) = pcr {
            if self.start_pcr.is_none() {
                self.start_pcr = Some(v);
            }
            self.end_pcr = Some(v);
        }
        if let Some(start) = self.start_pcr {
            let current: u64 = match pcr {
                Some(v) => v,
                None => 0,
            };
            let skip: u64 = self.options.skip_seconds * 90000;
            if current < start || current - start < skip {
                self.packet_number += 1;
                return;
            }
        }
        let ghost st1 = self@;
        let i = self.slot_for(header.pid);
        let ghost stats1 = self@.stats;
        let mut entry = self.stats[i];
        assert(entry@ == stats1[i as int]);
        assert(counts_bounded(entry@));
        proof {
            lemma_sum_elem(stats1, i as int, |c: PidCounts| packets_of(c));
        }
        entry.pid = header.pid;
        entry.total_packets += 1;
        if header.transport_error_indicator {
            entry.error_count += 1;
            if self.options.verbose {
                let detail = error_detail(self.packet_number, header.pid);
                self.details.push(detail);
                proof {
                    self.reported@ = self.reported@.push((self.packet_number, header.pid));
                }
            }
        }
        let a = match adapt {
            Some(f) => f,
            None => AdaptationField::default(),
        };
        let ghost e1 = entry@;
        check_drop(&mut entry, &header, &a, packet);
        if header.transport_scrambling_control != 0 {
            entry.scrambling_count += 1;
        }
        entry.last_packet = Some(*packet);
        self.stats.set(i, entry);
        self.packet_number += 1;
        proof {
            let new_counts = self.stats@.map_values(|p: PidStats| p@);
            assert(entry@ == count_packet(stats1[i as int], header, a, packet@));
            assert(new_counts =~= stats1.update(i as int, entry@));
            lemma_sum_update(stats1, i as int, entry@, |c: PidCounts| packets_of(c));
            assert forall|j: int, k: int|
                0 <= j < k < new_counts.len() implies #[trigger] new_counts[j].pid
                != #[trigger] new_counts[k].pid by {
                assert(stats1[j].pid != stats1[k].pid);
            }
            assert forall|j: int| 0 <= j < new_counts.len() implies counts_bounded(
                #[trigger] new_counts[j],
            ) by {
                assert(counts_bounded(stats1[j]));
            }
        }
    }
}

/// The index of the first sync byte among the 188 bytes from `offset`.
fn find_sync(buf: &[u8], offset: usize) -> (pos: Option<usize>)
    requires
        offset + 188 <= buf.len(),
    ensures
        match next_sync(buf@, offset as int, offset + 188) {
            Some(p) => pos == Some(p as usize),
            None => pos is None,
        },
{
    let mut i: usize = offset;
    while i < offset + 188
        invariant
            offset <= i <= offset + 188,
            offset + 188 <= buf.len(),
            next_sync(buf@, i as int, offset + 188) == next_sync(buf@, offset as int, offset + 188),
        decreases offset + 188 - i,
    {
        if buf[i] == 0x47 {
            return Some(i);
        }
        i += 1;
    }
    None
}

/// The 188 bytes from `offset`.
fn copy_packet(buf: &[u8], offset: usize) -> (packet: [u8; 188])
    requires
        offset + 188 <= buf.len(),
    ensures
        packet@ == buf@.subrange(offset as int, offset + 188),
{
    let mut packet = [0u8; 188];
    let mut i: usize = 0;
    while i < 188
        invariant
            i <= 188,
            offset + 188 <= buf.len(),
            forall|j: int| 0 <= j < i ==> packet@[j] == buf@[offset + j],
        decreases 188 - i,
    {
        packet[i] = buf[offset + i];
        i += 1;
    }
    assert(packet@ =~= buf@.subrange(offset as int, offset + 188));
    packet
}

/// A report of a transport error in packet number `packet_number` of PID `pid`.
fn error_detail(packet_number: u64, pid: u16) -> (d: ErrorDetail)
    ensures
        detail_reports(d, packet_number, pid),
{
    let time = duration_from_pcr(None, None);
    let pid_text = pid_string(pid);
    let mut error_type = String::new();
    push_char(&mut error_type, 'e');
    push_char(&mut error_type, 'r');
    push_char(&mut error_type, 'r');
    push_char(&mut error_type, 'o');
    push_char(&mut error_type, 'r');
    assert(error_type@ =~= error_type_text());
    ErrorDetail { time, packet_number, pid: pid_text, error_type }
}

/// `0x` and the PID in four lower-case hexadecimal digits.
pub fn pid_string(pid: u16) -> (text: String)
    ensures
        text@ == pid_text(pid),
{
    let mut text = String::new();
    push_char(&mut text, '0');
    push_char(&mut text, 'x');
    push_hex4(&mut text, pid);
    assert(text@ =~= pid_text(pid));
    text
}

} // verus!
