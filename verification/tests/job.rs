use nq::job::JobId;

#[test]
fn test_from_filename_comma() {
    let id = JobId::from_filename(",14f6f3034f8.17035").unwrap();
    assert_eq!(id.timestamp_ms, 0x14f6f3034f8);
    assert_eq!(id.pid, 17035);
}

#[test]
fn test_from_filename_dot() {
    let id = JobId::from_filename(".14f6f3034f8.17035").unwrap();
    assert_eq!(id.timestamp_ms, 0x14f6f3034f8);
    assert_eq!(id.pid, 17035);
}

#[test]
fn test_from_filename_invalid() {
    assert!(JobId::from_filename("").is_none());
    assert!(JobId::from_filename("abc").is_none());
    assert!(JobId::from_filename(",abc.def").is_none());
    assert!(JobId::from_filename(",14f6f3034f8.").is_none());
}

#[test]
fn test_filename_roundtrip() {
    let id = JobId::from_filename(",14f6f3034f8.17035").unwrap();
    assert_eq!(id.filename(), ",14f6f3034f8.17035");
    assert_eq!(id.temp_filename(), ".14f6f3034f8.17035");
}

#[test]
fn test_new_job_id_is_valid() {
    let now = std::time::SystemTime::now()
        .duration_since(std::time::UNIX_EPOCH)
        .expect("system time before epoch")
        .as_millis();
    let id = JobId::new(now, 4321);
    assert!(id.timestamp_ms > 0);
    assert!(id.pid > 0);
    // Can re-parse our own filename.
    let parsed = JobId::from_filename(&id.filename()).unwrap();
    assert_eq!(id, parsed);
}

#[test]
fn test_ordering() {
    let a = JobId { timestamp_ms: 100, pid: 1 };
    let b = JobId { timestamp_ms: 100, pid: 2 };
    let c = JobId { timestamp_ms: 200, pid: 1 };

    assert!(a < b); // same ts, different pid
    assert!(b < c); // different ts
    assert!(a < c);
    // Same ts + same pid -> equal
    assert_eq!(a, JobId { timestamp_ms: 100, pid: 1 });
}

#[test]
fn test_zero_padded() {
    let id = JobId { timestamp_ms: 0xabc, pid: 42 };
    assert_eq!(id.filename(), ",00000000abc.42");
}

#[test]
fn test_display() {
    let id = JobId { timestamp_ms: 0x14f6f3034f8, pid: 17035 };
    assert_eq!(id.to_string(), ",14f6f3034f8.17035");
}

#[test]
fn numbers_in_names() {
    let id = |t, p| Some(JobId { timestamp_ms: t, pid: p });
    // A plus sign, letters of either case, leading zeros.
    assert_eq!(JobId::from_filename(",+aB.+7"), id(0xab, 7));
    assert_eq!(JobId::from_filename(",0000000000000000000001.0000000000000002"), id(1, 2));
    // The largest values, and the first beyond them.
    assert_eq!(JobId::from_filename(",ffffffffffffffff.4294967295"), id(u64::MAX, u32::MAX));
    assert!(JobId::from_filename(",10000000000000000.1").is_none());
    assert!(JobId::from_filename(",1.4294967296").is_none());
    // No digits, signs and characters that do not belong.
    for name in [",.1", ",1.", ",+.1", ",1.+", ",++1.1", ",-1.1", ",1.-1", ",1.a", ",g.1", ",1 .1",
        ",1.1.1", ",_1.1", "1.1", ",,1.1", ",1", ",\u{661}.1"]
    {
        assert!(JobId::from_filename(name).is_none(), "{}", name);
    }
}

#[test]
fn numbers_are_read_as_std_reads_them() {
    let texts = ["", "0", "+", "-", "+0", "-0", "00", "7f", "7F", "g", "ffffffffffffffff",
        "10000000000000000", "0x1", " 1", "1 ", "4294967295", "4294967296", "1_0", "+1", "++1"];
    for t in texts {
        for p in texts {
            let expected = match (u64::from_str_radix(t, 16), p.parse::<u32>()) {
                (Ok(timestamp_ms), Ok(pid)) => Some(JobId { timestamp_ms, pid }),
                _ => None,
            };
            assert_eq!(JobId::from_filename(&format!(",{}.{}", t, p)), expected, "{} {}", t, p);
        }
    }
}

#[test]
fn names_are_written_as_std_writes_them() {
    for t in [0, 1, 9, 10, 15, 16, 0xabc, 0xfffffffffff, 0x100000000000, u64::MAX] {
        for p in [0, 1, 9, 10, 99, 100, u32::MAX] {
            let id = JobId { timestamp_ms: t, pid: p };
            assert_eq!(id.filename(), format!(",{:011x}.{}", t, p));
            assert_eq!(id.temp_filename(), format!(".{:011x}.{}", t, p));
            assert_eq!(JobId::from_filename(&id.filename()), Some(id));
            assert_eq!(JobId::from_filename(&id.temp_filename()), Some(id));
        }
    }
}

#[test]
fn time_keeps_its_low_bits() {
    assert_eq!(JobId::new(5, 6), JobId { timestamp_ms: 5, pid: 6 });
    let beyond = u64::MAX as u128 + 4;
    assert_eq!(JobId::new(beyond, 6), JobId { timestamp_ms: 3, pid: 6 });
}

#[test]
fn names_sort_by_time() {
    let name = |t, p| JobId { timestamp_ms: t, pid: p }.filename();
    assert!(name(0xff, 9) < name(0x100, 1));
    assert!(name(0x14f6f3034f8, 17035) < name(0x14f6f3034f9, 3));
    // In one millisecond, and with more digits, names and jobs can differ in their order.
    assert!(name(1, 10) < name(1, 9));
    assert!(name(0x100000000000, 1) < name(0x20000000000, 1));
    assert!(JobId { timestamp_ms: 1, pid: 9 } < JobId { timestamp_ms: 1, pid: 10 });
}

#[test]
fn order_is_that_of_ord() {
    let ids = [(1, 1), (1, 2), (2, 1), (2, 2)]
        .map(|(timestamp_ms, pid)| JobId { timestamp_ms, pid });
    for a in ids {
        for b in ids {
            assert_eq!(a.partial_cmp(&b), Some(a.cmp(&b)));
        }
    }
}
