//! Topology parsing, virtqueue mapping and IOThread identifiers.

use std::collections::HashMap;

use io_thread_controller::backends::qemu::helpers::{
    next_qemu_iothread_id, round_robin_vq_mapping, CpuSample, MetricLine, QemuError, QemuTopology,
    TaskTicks,
};
use io_thread_controller::backends::{BackendClientError, IoErrorKind, IoFailure};
use io_thread_controller::ordered::OrderedMap;
use io_thread_controller::quantity::read_count;
use io_thread_controller::text::to_chars;

fn strings(items: &[&str]) -> Vec<String> {
    items.iter().map(|s| s.to_string()).collect()
}

/// Virtqueue round-robin mapping spreads queues across IOThreads as evenly as
/// possible.
#[test]
fn round_robin_distributes_evenly() {
    let ids = vec!["iot0".to_string(), "iot1".to_string(), "iot2".to_string()];
    let mapping = round_robin_vq_mapping(&ids, 7);
    let counts: Vec<usize> = mapping.iter().map(|m| m.vqs.len()).collect();
    assert_eq!(counts, vec![3, 2, 2]);
    assert_eq!(mapping[0].vqs, vec![0, 3, 6]);
    assert_eq!(mapping[1].vqs, vec![1, 4]);
    assert_eq!(mapping[2].vqs, vec![2, 5]);
}

#[test]
fn round_robin_of_nothing_is_empty() {
    assert!(round_robin_vq_mapping(&[], 7).is_empty());
    assert!(round_robin_vq_mapping(&strings(&["iot0"]), 0).is_empty());
}

#[test]
fn round_robin_with_more_threads_than_queues() {
    let mapping = round_robin_vq_mapping(&strings(&["a", "b", "c"]), 2);
    assert_eq!(mapping.len(), 3);
    assert_eq!(mapping[0].iothread, "a");
    assert_eq!(mapping[0].vqs, vec![0]);
    assert_eq!(mapping[1].vqs, vec![1]);
    assert!(mapping[2].vqs.is_empty());
}

#[test]
fn every_queue_is_mapped_once() {
    for threads in 1..6usize {
        let ids: Vec<String> = (0..threads).map(|n| format!("iot{n}")).collect();
        for count in [1u16, 5, 64, 65535] {
            let mapping = round_robin_vq_mapping(&ids, count);
            let mut seen = vec![0u32; count as usize];
            for (i, entry) in mapping.iter().enumerate() {
                for vq in &entry.vqs {
                    assert_eq!(*vq as usize % threads, i);
                    seen[*vq as usize] += 1;
                }
            }
            assert!(seen.iter().all(|n| *n == 1));
        }
    }
}

/// `next_qemu_iothread_id` fills the lowest missing `iotN` id.
#[test]
fn next_id_fills_gaps_in_order() {
    let ids = vec!["iot0".to_string(), "iot2".to_string()];
    assert_eq!(next_qemu_iothread_id(&ids), "iot1");
    let ids = vec!["iot0".to_string(), "iot1".to_string()];
    assert_eq!(next_qemu_iothread_id(&ids), "iot2");
}

#[test]
fn next_id_is_the_lowest_unused_one() {
    assert_eq!(next_qemu_iothread_id(&[]), "iot0");
    assert_eq!(next_qemu_iothread_id(&strings(&["iot00", "other"])), "iot0");
    let many: Vec<String> = (0..1030).map(|n| format!("iot{n}")).collect();
    assert_eq!(next_qemu_iothread_id(&many), "iot1030");
}

/// Metrics text yields IOThread ids, TIDs, and the virtio-scsi device path.
#[test]
fn topology_parses_prometheus_body() {
    let body = r#"# HELP foo
qemu_iothread_info{id="iot0",tid="123"} 1
qemu_iothread_info{id="iot1",tid="124"} 1
qemu_iothread_info{id="dirtybitmap",tid="999"} 1
qemu_virtio_scsi_num_queues{device="/machine/peripheral/scsi0"} 4
"#;
    let topo = QemuTopology::new(body);
    assert_eq!(topo.iothreads, vec!["iot0", "iot1"]);
    assert_eq!(topo.iothread_tids.get("iot0"), Some(&123));
    assert_eq!(topo.device_path, "/machine/peripheral/scsi0");
    assert_eq!(topo.vq_count, 4);
}

#[test]
fn topology_of_an_empty_body_is_empty() {
    let topo = QemuTopology::new("");
    assert!(topo.iothreads.is_empty());
    assert!(topo.iothread_tids.is_empty());
    assert_eq!(topo.device_path, "");
    assert_eq!(topo.vq_count, 0);
}

#[test]
fn topology_skips_comments_and_unreadable_lines() {
    let body = "#qemu_iothread_info{id=\"iot9\",tid=\"1\"} 1\r\n\
qemu_iothread_info{tid=\"2\"} 1\r\n\
qemu_iothread_info{id=\"\",tid=\"3\"} 1\n\
qemu_iothread_info{id=\"iot1\",tid=\"x\"} 1\n\
qemu_iothread_info{id=\"iot2\"} 1\n\
qemu_iothread_info{id=\"iot3\",tid=\"4\"}1\n\
\x20qemu_iothread_info{id=\"iot4\",tid=\"5\"} 1\n\
qemu_iothread_info{id=\"iot5\",tid=\"6\"} x\n\
qemu_iothread_info{id=\"iot6x\",tid=\"7\"} 1\n\
qemu_iothread_info{id=\"iot7\",tid=\"2147483648\"} 1\n";
    let topo = QemuTopology::new(body);
    assert!(topo.iothreads.is_empty());
}

#[test]
fn topology_sorts_ids_as_text_and_keeps_the_last_task() {
    let body = "qemu_iothread_info{id=\"iot10\", tid=\"5\"}\t1\n\
qemu_iothread_info{ id = \"iot2\" ,thread_id=\"+6\" }  1e0 trailing\n\
qemu_iothread_info{id=\"iot2\",tid=\"-7\"} .5\n\
qemu_iothread_info{id=\"a\",id=\"iot1\",tid=\"8\"} +";
    let topo = QemuTopology::new(body);
    assert_eq!(topo.iothreads, vec!["iot1", "iot10", "iot2"]);
    assert_eq!(topo.iothread_tids.get("iot1"), Some(&8));
    assert_eq!(topo.iothread_tids.get("iot10"), Some(&5));
    assert_eq!(topo.iothread_tids.get("iot2"), Some(&-7));
    assert_eq!(topo.iothread_tids.get("iot3"), None);
    assert_eq!(*topo.iothread_tids.value_at(0), 8);
}

#[test]
fn topology_prefers_tid_over_thread_id() {
    let topo = QemuTopology::new("qemu_iothread_info{id=\"iot0\",thread_id=\"2\",tid=\"1\"} 1");
    assert_eq!(topo.iothread_tids.get("iot0"), Some(&1));
    let topo = QemuTopology::new("qemu_iothread_info{id=\"iot0\",thread_id=\"2\",tid=\"\"} 1");
    assert_eq!(topo.iothread_tids.get("iot0"), None);
}

#[test]
fn topology_keeps_the_first_usable_device() {
    let body = "qemu_virtio_scsi_num_queues{device=\"\"} 1\n\
qemu_virtio_scsi_num_queues{device=\"/a\"} e\n\
qemu_virtio_scsi_num_queues{path=\"/b\"} 2.9\n\
qemu_virtio_scsi_num_queues{device=\"/c\"} 3\n";
    let topo = QemuTopology::new(body);
    assert_eq!(topo.device_path, "/b");
    assert_eq!(topo.vq_count, 2);
}

#[test]
fn topology_from_classified_lines() {
    let lines = vec![
        MetricLine::Other,
        MetricLine::IoThread { labels: "id=\"iot0\",tid=\"9\"".to_string() },
        MetricLine::Queues { labels: "device=\"/d\"".to_string(), value: "-1".to_string() },
    ];
    let topo = QemuTopology::from_lines(&lines);
    assert_eq!(topo.iothreads, vec!["iot0"]);
    assert_eq!(topo.device_path, "/d");
    assert_eq!(topo.vq_count, 0);
}

#[test]
fn lines_are_classified_as_by_the_patterns() {
    let names = ["qemu_iothread_info", "qemu_virtio_scsi_num_queues", "qemu", "xqemu_iothread_info"];
    let labels = ["", "a", "a}b", "id=\"iot0\"", "{", "a\u{a0}b"];
    let gaps = ["", " ", "\t ", "\u{a0}", "\u{2003}\u{3000}", "\u{200b}"];
    let values = ["", "1", "1.5e+3x", "-", "x", "1 2", "+.eE-09/"];
    for name in names {
        let pattern = format!("^{name}\\{{([^}}]*)\\}}\\s+([0-9.eE+\\-]+)");
        let re = regex::Regex::new(&pattern).unwrap();
        for label in labels {
            for gap in gaps {
                for value in values {
                    let line = format!("{name}{{{label}}}{gap}{value}");
                    let wanted = re
                        .captures(&line)
                        .map(|c| (c[1].to_string(), c[2].to_string()));
                    match (name, MetricLine::read(&line)) {
                        ("qemu_iothread_info", MetricLine::IoThread { labels }) => {
                            assert_eq!(Some(labels), wanted.map(|w| w.0), "{line}");
                        }
                        ("qemu_iothread_info", MetricLine::Other) => assert_eq!(wanted, None),
                        ("qemu_virtio_scsi_num_queues", MetricLine::Queues { labels, value }) => {
                            assert_eq!(Some((labels, value)), wanted, "{line}");
                        }
                        ("qemu_virtio_scsi_num_queues", MetricLine::Other) => {
                            assert_eq!(wanted, None)
                        }
                        (_, MetricLine::Other) => {}
                        (_, other) => panic!("{line}: {other:?}"),
                    }
                }
            }
        }
    }
}

#[test]
fn labels_are_trimmed_unquoted_and_the_last_wins() {
    let labels = QemuTopology::parse_qemu_labels(" a = \"x\" ,, b=y=z, noeq , a=\"\"q\"\" ,=v");
    assert_eq!(labels.len(), 3);
    assert_eq!(labels.get("a"), Some(&"q".to_string()));
    assert_eq!(labels.get("b"), Some(&"y=z".to_string()));
    assert_eq!(labels.get(""), Some(&"v".to_string()));
    assert_eq!(labels.get("noeq"), None);
}

fn counted(text: &str) -> Option<u16> {
    read_count(&to_chars(text))
}

#[test]
fn counts_agree_with_binary64() {
    let mut texts: Vec<String> = [
        "0", "1", "4", "4.0", "4.9", "0004", "-1", "-0", "+7", ".5", "5.", ".", "", "e", "1e", "1e+",
        "1e5", "1e4", "6.5535e4", "65535", "65535.5", "65536", "1e999", "1e-999", "0e999", "0.0e9",
        "1E2", "1e2e3", "1.2.3", "--1", "+-1", "12345e-3", "0.00001e5", "99999999999999999999999",
        "0.99999999999999999999", "0.9999999999999999", "0.99999999999999994",
        "0.999999999999999944488848768742172978818416595458984375",
        "0.999999999999999944488848768742172978818416595458984374",
        "3.9999999999999998", "3.9999999999999997", "3.99999999999999977795539507496869191527366638183594",
        "65534.999999999996", "65534.99999999999", "65534.9999999999963620211929082870483398437",
        "255.99999999999998579", "255.9999999999999857", "1e+0", "1e-0", "100000e-5", "999999e-6",
        "1e00000000000000000000000000000000000000000000000000000000000000001",
        "1e100000000000000000000000000000000000000000000", "1e-100000000000000000000000000000000000000",
        "0000000000000000000000000000000000000000000000000000000012.5",
    ]
    .iter()
    .map(|s| s.to_string())
    .collect();
    for n in 0..70u32 {
        texts.push(format!("{}", n as f64 * 1.1));
        texts.push(format!("{:e}", (n as f64).powi(5) / 7.0));
        texts.push(format!("{}.{}", n, "9".repeat(n as usize)));
        texts.push(format!("{}.{}8", 1u64 << (n % 17), "9".repeat(15)));
        texts.push(format!("{}.{}4", 1u64 << (n % 17), "9".repeat(n as usize)));
    }
    for text in &texts {
        let wanted = text.parse::<f64>().ok().map(|v| v as u16);
        assert_eq!(counted(text), wanted, "{text}");
    }
}

fn tids(entries: &[(&str, i32)]) -> OrderedMap<i32> {
    let mut map = OrderedMap::new();
    for (id, tid) in entries {
        map.insert(id.to_string(), *tid);
    }
    map
}

#[test]
fn unrelated_lines_change_no_topology() {
    let body = "qemu_iothread_info{id=\"iot0\",tid=\"5\"} 1\n\
                qemu_virtio_scsi_num_queues{device=\"/d\"} 8\n";
    let noise = "# HELP qemu_iothread_info x\n#qemu_iothread_info{id=\"iot9\",tid=\"9\"} 1\n\
                 up 1\nqemu_iothread_info_total 3\nx qemu_virtio_scsi_num_queues{device=\"/e\"} 9\n\n";
    for text in [format!("{noise}{body}"), format!("{body}{noise}"), body.to_string()] {
        let topo = QemuTopology::new(&text);
        assert_eq!(topo.iothreads, vec!["iot0"]);
        assert_eq!((topo.device_path.as_str(), topo.vq_count), ("/d", 8));
    }
    let topo = QemuTopology::new(noise);
    assert!(topo.iothreads.is_empty());
    assert_eq!((topo.device_path.as_str(), topo.vq_count), ("", 0));
}

#[test]
fn cpu_sample_sums_ticks_per_task() {
    let map = tids(&[("iot1", 11), ("iot0", 10), ("iot2", 11)]);
    let readings = vec![
        TaskTicks { utime: 1, stime: 2 },
        TaskTicks { utime: 3, stime: 4 },
        TaskTicks { utime: 5, stime: 6 },
    ];
    let sample = CpuSample::new(&map, &readings, 77);
    assert_eq!(sample.wall, 77);
    assert_eq!(sample.jiffies.len(), 2);
    assert_eq!(sample.jiffies.get(&10), Some(&3));
    assert_eq!(sample.jiffies.get(&11), Some(&11));
    assert_eq!(sample.jiffies.get(&12), None);
}

fn sample(entries: &[(i32, u64)], wall: u128) -> CpuSample {
    let mut jiffies = HashMap::new();
    for (tid, ticks) in entries {
        jiffies.insert(*tid, *ticks);
    }
    CpuSample { jiffies, wall }
}

#[test]
fn cpu_difference_takes_shared_tasks_that_went_forward() {
    let prev = sample(&[(1, 100), (2, 50), (3, 9)], 1_000);
    let cur = sample(&[(2, 60), (4, 1), (1, 99), (3, 9)], 1_000_001_000);
    let util = CpuSample::diff_jiffies_sample(&prev, &cur, 100);
    assert_eq!(f64::from_bits(util.bits), 0.1 / 2.0);
}

#[test]
fn cpu_difference_averages_clamped_shares() {
    let second = 1_000_000_000u128;
    let prev = sample(&[(1, 5), (2, 5), (3, 5), (4, 5)], 7);
    let cur = sample(&[(1, 30), (2, 55), (3, 5), (4, 1_000)], 7 + second);
    let util = CpuSample::diff_jiffies_sample(&prev, &cur, 100);
    assert_eq!(f64::from_bits(util.bits), (0.25 + 0.5 + 0.0 + 1.0) / 4.0);

    let ticks = [1, 3, 7, 19, 50, 99, 1_000, u64::MAX];
    for (elapsed, hz) in [(1, 100), (999_999_937, 100), (1_500_000_001, 250), (60 * second, 1_000)] {
        let before: Vec<(i32, u64)> = (0..8).map(|i| (i, 0)).collect();
        let after: Vec<(i32, u64)> = (0..8).map(|i| (i, ticks[i as usize])).collect();
        let later = sample(&after, 5 + elapsed);
        let util = CpuSample::diff_jiffies_sample(&sample(&before, 5), &later, hz);
        let seconds = std::time::Duration::from_nanos(elapsed as u64).as_secs_f64();
        let mut total = 0.0;
        for spent in ticks {
            total += ((spent as f64 / hz as f64) / seconds).clamp(0.0, 1.0);
        }
        let measured = f64::from_bits(util.bits);
        assert!((measured - total / 8.0).abs() <= 4.0 * f64::EPSILON);
        assert!((0.0..=1.0).contains(&measured));
    }
}

#[test]
fn cpu_difference_of_one_task_is_a_rounded_quotient() {
    for (spent, elapsed, hz) in [(7, 999_999_937u128, 100), (19, 1_500_000_001, 250)] {
        let later = sample(&[(3, spent)], elapsed);
        let util = CpuSample::diff_jiffies_sample(&sample(&[(3, 0)], 0), &later, hz);
        let seconds = std::time::Duration::from_nanos(elapsed as u64).as_secs_f64();
        assert_eq!(f64::from_bits(util.bits), spent as f64 / hz as f64 / seconds);
    }
}

#[test]
fn cpu_difference_needs_time_and_a_shared_task() {
    let prev = sample(&[(1, 100)], 1_000);
    for cur in [
        sample(&[(1, 101)], 1_000),
        sample(&[(1, 101)], 999),
        sample(&[(2, 101)], 2_000),
        sample(&[(1, 99)], 2_000),
    ] {
        assert_eq!(CpuSample::diff_jiffies_sample(&prev, &cur, 100).bits, 0);
    }
}

fn failure(kind: IoErrorKind) -> IoFailure {
    IoFailure { kind, message: "gone".to_string() }
}

#[test]
fn qemu_errors_become_client_errors() {
    match QemuError::Broken.into_client_error() {
        BackendClientError::Transport(text) => assert_eq!(text, "qemu client broken"),
        other => panic!("{other:?}"),
    }
    match QemuError::Io(failure(IoErrorKind::BrokenPipe)).into_client_error() {
        BackendClientError::Disconnected(text) => assert_eq!(text, "io: gone"),
        other => panic!("{other:?}"),
    }
    match QemuError::Io(failure(IoErrorKind::Other)).into_client_error() {
        BackendClientError::Transport(text) => assert_eq!(text, "io: gone"),
        other => panic!("{other:?}"),
    }
    match QemuError::Parse("bad".to_string()).into_client_error() {
        BackendClientError::Protocol(text) => assert_eq!(text, "bad"),
        other => panic!("{other:?}"),
    }
    let qmp = QemuError::QmpError {
        cmd: "c".to_string(),
        class: "k".to_string(),
        desc: "d".to_string(),
    };
    assert_eq!(qmp.message(), "qmp c error: k: d");
    match qmp.into_client_error() {
        BackendClientError::QmpError { cmd, class, desc } => {
            assert_eq!((cmd.as_str(), class.as_str(), desc.as_str()), ("c", "k", "d"));
        }
        other => panic!("{other:?}"),
    }
}

#[test]
fn qemu_errors_render() {
    assert_eq!(QemuError::Broken.message(), "qemu client is broken");
    assert_eq!(QemuError::Io(failure(IoErrorKind::Other)).message(), "io: gone");
    assert_eq!(QemuError::Parse("x".to_string()).message(), "parse: x");
}
