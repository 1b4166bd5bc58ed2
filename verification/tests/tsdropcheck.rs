use mirakc_webui::tsdropcheck::{
    check_drop, duration_from_pcr, parse_adaptation_field, parse_ts_header, pid_string,
    same_packet, AdaptationField, CheckOptions, DropChecker, PidStats, TsHeader,
};

#[test]
fn test_parse_ts_header() {
    let mut packet = [0u8; 188];
    packet[0] = 0x47;
    packet[1] = 0x00; // PID=0 (bits 4-0 = 0x00)
    packet[2] = 0x00;
    packet[3] = 0x01; // CC=1
    let header = parse_ts_header(&packet);
    assert_eq!(header.pid, 0);
    assert_eq!(header.continuity_counter, 1);
    assert_eq!(header.sync_byte, 0x47);
}

#[test]
fn test_duration_from_pcr() {
    let dur = duration_from_pcr(Some(0), Some(90000));
    assert_eq!(dur, "00:00:01.00");
}

fn packet(pid: u16, afc: u8, cc: u8) -> [u8; 188] {
    let mut p = [0u8; 188];
    p[0] = 0x47;
    p[1] = ((pid >> 8) as u8) & 0x1f;
    p[2] = (pid & 0xff) as u8;
    p[3] = (afc << 4) | (cc & 0x0f);
    p
}

#[test]
fn header_fields_are_read_from_their_bits() {
    let mut p = packet(0x1abc, 3, 9);
    p[1] |= 0x80 | 0x40 | 0x20;
    let h = parse_ts_header(&p);
    assert_eq!(h.pid, 0x1abc);
    assert!(h.transport_error_indicator);
    assert!(h.payload_unit_start_indicator);
    assert!(h.transport_priority);
    assert_eq!(h.adaptation_field_control, 3);
    assert_eq!(h.transport_scrambling_control, 3);
    assert_eq!(h.continuity_counter, 9);
}

#[test]
fn adaptation_field_absent_without_control_bits() {
    let p = packet(0x100, 1, 0);
    let h = parse_ts_header(&p);
    assert!(parse_adaptation_field(&p, &h).is_none());
}

#[test]
fn adaptation_field_absent_with_zero_length() {
    let p = packet(0x100, 2, 0);
    let h = parse_ts_header(&p);
    assert!(parse_adaptation_field(&p, &h).is_none());
}

#[test]
fn adaptation_field_reads_pcr_and_flags() {
    let mut p = packet(0x100, 3, 0);
    p[4] = 7;
    p[5] = 0x10;
    p[6] = 0x80;
    let h = parse_ts_header(&p);
    let a = parse_adaptation_field(&p, &h).unwrap();
    assert_eq!(a.length, 7);
    assert!(!a.pcr_flag);
    assert!(a.random_access_indicator);
    assert_eq!(a.pcr, None);

    let mut q = packet(0x100, 3, 0);
    q[4] = 7;
    q[5] = 0x80;
    q[6] = 0x00;
    q[7] = 0x00;
    q[8] = 0x00;
    q[9] = 0x00;
    q[10] = 0x00;
    q[11] = 0x05;
    let h = parse_ts_header(&q);
    let a = parse_adaptation_field(&q, &h).unwrap();
    assert!(a.pcr_flag);
    assert_eq!(a.pcr, Some(5u64 << 15));
}

#[test]
fn adaptation_field_reads_splice_countdown() {
    let mut p = packet(0x100, 2, 0);
    p[4] = 3;
    p[5] = 0x20 | 0x40;
    p[6] = 9;
    p[7] = 4;
    let h = parse_ts_header(&p);
    let a = parse_adaptation_field(&p, &h).unwrap();
    assert_eq!(a.discontinuity_counter, 9);
    assert_eq!(a.splice_countdown, Some(4));
}

fn stats_with(last: Option<u8>) -> PidStats {
    let mut s = PidStats::default();
    s.pid = 0x100;
    s.last_continuity_counter = last;
    s
}

#[test]
fn consecutive_counters_are_no_drop() {
    let p = packet(0x100, 1, 6);
    let h = parse_ts_header(&p);
    let mut s = stats_with(Some(5));
    check_drop(&mut s, &h, &AdaptationField::default(), &p);
    assert_eq!(s.drop_count, 0);
    assert_eq!(s.last_continuity_counter, Some(6));
}

#[test]
fn counter_wraps_after_fifteen() {
    let p = packet(0x100, 1, 0);
    let h = parse_ts_header(&p);
    let mut s = stats_with(Some(15));
    check_drop(&mut s, &h, &AdaptationField::default(), &p);
    assert_eq!(s.drop_count, 0);
}

#[test]
fn skipped_counter_is_a_drop() {
    let p = packet(0x100, 1, 8);
    let h = parse_ts_header(&p);
    let mut s = stats_with(Some(5));
    check_drop(&mut s, &h, &AdaptationField::default(), &p);
    assert_eq!(s.drop_count, 1);
}

#[test]
fn first_duplicate_is_tolerated_second_is_a_drop() {
    let p = packet(0x100, 1, 5);
    let h = parse_ts_header(&p);
    let mut s = stats_with(Some(5));
    s.last_packet = Some(p);
    check_drop(&mut s, &h, &AdaptationField::default(), &p);
    assert_eq!(s.drop_count, 0);
    assert_eq!(s.duplicate_count, 1);
    check_drop(&mut s, &h, &AdaptationField::default(), &p);
    assert_eq!(s.drop_count, 1);
    assert_eq!(s.duplicate_count, 2);
}

#[test]
fn repeated_counter_with_other_bytes_is_a_drop() {
    let p = packet(0x100, 1, 5);
    let mut other = p;
    other[100] = 1;
    let h = parse_ts_header(&p);
    let mut s = stats_with(Some(5));
    s.last_packet = Some(other);
    check_drop(&mut s, &h, &AdaptationField::default(), &p);
    assert_eq!(s.drop_count, 1);
}

#[test]
fn null_pid_is_never_checked() {
    let p = packet(0x1fff, 1, 9);
    let h = parse_ts_header(&p);
    let mut s = stats_with(Some(2));
    check_drop(&mut s, &h, &AdaptationField::default(), &p);
    assert_eq!(s.drop_count, 0);
    assert_eq!(s.last_continuity_counter, Some(2));
}

#[test]
fn adaptation_only_packet_compares_counters() {
    let p = packet(0x100, 2, 3);
    let h = parse_ts_header(&p);
    let mut s = stats_with(Some(2));
    check_drop(&mut s, &h, &AdaptationField::default(), &p);
    assert_eq!(s.drop_count, 1);
    assert_eq!(s.last_continuity_counter, Some(2));
}

#[test]
fn discontinuity_resets_the_counter() {
    let p = packet(0x100, 3, 12);
    let h = parse_ts_header(&p);
    let mut a = AdaptationField::default();
    a.discontinuity_counter = 1;
    let mut s = stats_with(Some(2));
    check_drop(&mut s, &h, &a, &p);
    assert_eq!(s.drop_count, 0);
    assert_eq!(s.last_continuity_counter, Some(12));
}

#[test]
fn packets_compare_by_bytes() {
    let p = packet(1, 1, 1);
    let mut q = p;
    assert!(same_packet(&p, &q));
    q[187] = 3;
    assert!(!same_packet(&p, &q));
}

#[test]
fn pid_text_is_four_hex_digits() {
    assert_eq!(pid_string(0x11), "0x0011");
    assert_eq!(pid_string(0x1fff), "0x1fff");
}

#[test]
fn duration_formats() {
    assert_eq!(duration_from_pcr(None, Some(5)), "00:00:00.00");
    assert_eq!(duration_from_pcr(Some(5), None), "00:00:00.00");
    assert_eq!(duration_from_pcr(Some(0), Some(90000 * 3661 + 45000)), "01:01:01.50");
    assert_eq!(duration_from_pcr(Some(0), Some(90000 * 3600 * 120)), "120:00:00.00");
    // a wrapped clock: from 0x1ffffffff - 89999 to 1 spans 90000 ticks
    assert_eq!(duration_from_pcr(Some(0x1ffffffff - 89999), Some(1)), "00:00:01.00");
}

fn stream(packets: &[[u8; 188]]) -> Vec<u8> {
    let mut v = Vec::new();
    for p in packets {
        v.extend_from_slice(p);
    }
    v
}

#[test]
fn checker_counts_packets_per_pid() {
    let data = stream(&[
        packet(0x100, 1, 0),
        packet(0x100, 1, 1),
        packet(0x200, 1, 7),
        packet(0x100, 1, 3),
    ]);
    let mut c = DropChecker::new(CheckOptions::default());
    c.feed(&data);
    let r = c.finish(12);
    assert_eq!(r.total_packets, 4);
    assert_eq!(r.total_bytes, 4 * 188);
    assert_eq!(r.total_drops, 1);
    assert_eq!(r.total_errors, 0);
    assert_eq!(r.syncbyte_lost, 0);
    assert_eq!(r.check_time_ms, 12);
    assert_eq!(r.duration, "00:00:00.00");
    assert_eq!(r.pid_stats.len(), 2);
    assert_eq!(r.pid_stats[0].pid, "0x0100");
    assert_eq!(r.pid_stats[0].packets, 3);
    assert_eq!(r.pid_stats[0].drops, 1);
    assert_eq!(r.pid_stats[1].pid, "0x0200");
    assert_eq!(r.pid_stats[1].packets, 1);
}

#[test]
fn checker_resyncs_after_the_next_sync_byte() {
    let mut data = vec![0u8; 3];
    data[1] = 0x47;
    data.extend(stream(&[packet(0x100, 1, 0), packet(0x100, 1, 1)]));
    let mut c = DropChecker::new(CheckOptions::default());
    c.feed(&data);
    let r = c.finish(0);
    // the scan resumes just after each sync byte it finds, so it never lands on a
    // packet start again in this chunk
    assert_eq!(r.total_packets, 0);
    assert_eq!(r.syncbyte_lost, 0);
    assert_eq!(r.total_bytes, 3 + 2 * 188);
}

#[test]
fn checker_counts_lost_sync() {
    let data = vec![0u8; 400];
    let mut c = DropChecker::new(CheckOptions::default());
    c.feed(&data);
    c.feed(&data);
    let r = c.finish(0);
    assert_eq!(r.syncbyte_lost, 2);
    assert_eq!(r.total_packets, 0);
}

#[test]
fn checker_reports_errors_in_verbose_mode() {
    let mut p = packet(0x30, 1, 0);
    p[1] |= 0x80;
    let data = stream(&[packet(0x30, 1, 15), p]);
    let options = CheckOptions { skip_seconds: 0, verbose: true, limit: 16 };
    let mut c = DropChecker::new(options);
    c.feed(&data);
    let r = c.finish(0);
    assert_eq!(r.total_errors, 1);
    assert_eq!(r.details.len(), 1);
    assert_eq!(r.details[0].packet_number, 1);
    assert_eq!(r.details[0].pid, "0x0030");
    assert_eq!(r.details[0].error_type, "error");
    assert_eq!(r.details[0].time, "00:00:00.00");
}

#[test]
fn checker_skips_packets_before_the_offset() {
    let mut first = packet(0x100, 3, 0);
    first[4] = 7;
    first[5] = 0x80; // PCR 0
    let mut later = packet(0x100, 3, 5);
    later[4] = 7;
    later[5] = 0x80;
    // base 90000 * 2 << 15 is what the reader builds from these bytes
    let base: u64 = 90000 * 2;
    later[6] = (base >> 25) as u8;
    later[7] = (base >> 17) as u8;
    later[8] = (base >> 9) as u8;
    later[9] = (base >> 1) as u8;
    let data = stream(&[first, packet(0x100, 1, 9), later]);
    let options = CheckOptions { skip_seconds: 1, verbose: false, limit: 16 };
    let mut c = DropChecker::new(options);
    c.feed(&data);
    let r = c.finish(0);
    assert_eq!(r.total_packets, 3);
    assert_eq!(r.start_pcr, Some(0));
    assert!(r.end_pcr.unwrap() > 0);
    assert_eq!(r.pid_stats.len(), 1);
    assert_eq!(r.pid_stats[0].packets, 1);
}

#[test]
fn header_struct_is_plain_data() {
    let h = TsHeader {
        sync_byte: 0x47,
        transport_error_indicator: false,
        payload_unit_start_indicator: false,
        transport_priority: false,
        pid: 1,
        transport_scrambling_control: 0,
        adaptation_field_control: 1,
        continuity_counter: 0,
    };
    let copy = h;
    assert_eq!(copy.pid, h.pid);
}

#[test]
fn clean_chunks_read_like_one_stream() {
    let a = stream(&[packet(0x100, 1, 0), packet(0x101, 1, 4)]);
    let b = stream(&[packet(0x100, 1, 2), packet(0x101, 1, 5)]);
    let mut whole = a.clone();
    whole.extend_from_slice(&b);

    let mut split = DropChecker::new(CheckOptions::default());
    split.feed(&a);
    split.feed(&b);
    let r1 = split.finish(0);

    let mut once = DropChecker::new(CheckOptions::default());
    once.feed(&whole);
    let r2 = once.finish(0);

    assert_eq!(r1.total_packets, 4);
    assert_eq!(r1.total_packets, r2.total_packets);
    assert_eq!(r1.total_bytes, r2.total_bytes);
    assert_eq!(r1.total_drops, 1);
    assert_eq!(r1.total_drops, r2.total_drops);
    assert_eq!(r1.pid_stats.len(), r2.pid_stats.len());
}

#[test]
fn packets_across_chunk_ends_are_not_read() {
    let data = stream(&[packet(0x100, 1, 0), packet(0x100, 1, 1)]);
    let mut c = DropChecker::new(CheckOptions::default());
    c.feed(&data[..200]);
    c.feed(&data[200..]);
    let r = c.finish(0);
    assert_eq!(r.total_bytes, 376);
    assert_eq!(r.total_packets, 1);
}

#[test]
fn full_counters_stay_where_nothing_is_counted() {
    let p = packet(0x1fff, 1, 9);
    let h = parse_ts_header(&p);
    let mut s = stats_with(Some(2));
    s.drop_count = u64::MAX;
    s.duplicate_count = u64::MAX;
    check_drop(&mut s, &h, &AdaptationField::default(), &p);
    assert_eq!(s.drop_count, u64::MAX);

    let q = packet(0x100, 1, 3);
    let h = parse_ts_header(&q);
    check_drop(&mut s, &h, &AdaptationField::default(), &q);
    assert_eq!(s.drop_count, u64::MAX);
    assert_eq!(s.duplicate_count, 0);
    assert_eq!(s.last_continuity_counter, Some(3));
}
