//! QMP commands and replies, and the choice of VMs.

use io_thread_controller::backends::qemu::helpers::QemuError;
use io_thread_controller::backends::qemu::libvirt::{
    libvirt_failure, parse_blockstats, parse_metrics, parse_qmp_envelope, parse_vq_mapping,
    spawn_failure, xml_has_virtio_scsi, BlockStats, LibvirtConn, LibvirtQmp, QmpCommand,
    QmpEnvelope, QmpErrorBody, QmpValue, VmCandidate,
};
use io_thread_controller::backends::{IoThreadProperties, VqMapping};

/// Domain XML detection accepts virtio-scsi model variants and rejects others.
#[test]
fn xml_matches_virtio_scsi_variants() {
    let a = r#"<controller type='scsi' index='0' model='virtio-scsi'>"#;
    let b = r#"<controller type="scsi" index="0" model="virtio-scsi"/>"#;
    let c = r#"<controller type='scsi' model='lsi'/>"#;
    let d = r#"<disk type='file'/>"#;
    assert!(xml_has_virtio_scsi(a));
    assert!(xml_has_virtio_scsi(b));
    assert!(!xml_has_virtio_scsi(c));
    assert!(!xml_has_virtio_scsi(d));
}

#[test]
fn xml_attributes_must_share_a_line() {
    assert!(xml_has_virtio_scsi("<domain>\r\n \t<controller model=\"virtio-scsi\" type='scsi'>"));
    assert!(!xml_has_virtio_scsi("<controller type='scsi'\nmodel='virtio-scsi'>"));
    assert!(!xml_has_virtio_scsi("x<controller type='scsi' model='virtio-scsi'>"));
    assert!(!xml_has_virtio_scsi(""));
}

fn decode(body: &str) -> Result<QmpEnvelope, String> {
    let value: serde_json::Value = serde_json::from_str(body).map_err(|e| e.to_string())?;
    let text = |v: &serde_json::Value| v.as_str().unwrap().to_string();
    Ok(QmpEnvelope {
        ret: value.get("return").map(|v| v.to_string()),
        error: value.get("error").map(|e| QmpErrorBody {
            class: text(&e["class"]),
            desc: text(&e["desc"]),
        }),
    })
}

/// A QMP success envelope yields the return payload.
#[test]
fn parse_envelope_extracts_return() {
    let body = r#"{"return":{"foo":42}}"#;
    let v = parse_qmp_envelope("query", body, decode(body)).unwrap();
    assert_eq!(v, r#"{"foo":42}"#);
}

/// A QMP error envelope becomes a typed error with class/desc.
#[test]
fn parse_envelope_surfaces_qmp_error() {
    let body = r#"{"error":{"class":"GenericError","desc":"boom"}}"#;
    let err = parse_qmp_envelope("query", body, decode(body)).unwrap_err();
    match err {
        QemuError::QmpError { cmd, class, desc } => {
            assert_eq!(cmd, "query");
            assert_eq!(class, "GenericError");
            assert_eq!(desc, "boom");
        }
        other => panic!("unexpected err: {other:?}"),
    }
}

#[test]
fn parse_envelope_reports_what_is_missing() {
    match parse_qmp_envelope("query", "{}", decode("{}")).unwrap_err() {
        QemuError::Parse(text) => {
            assert_eq!(text, "qmp query response missing return/error: {}")
        }
        other => panic!("{other:?}"),
    }
    match parse_qmp_envelope("query", "x", Err("bad json".to_string())).unwrap_err() {
        QemuError::Parse(text) => assert_eq!(text, "decode query response: bad json (body=x)"),
        other => panic!("{other:?}"),
    }
}

fn stats(body: &str) -> Result<Vec<BlockStats>, String> {
    let value: serde_json::Value = serde_json::from_str(body).map_err(|e| e.to_string())?;
    let list = value.as_array().unwrap();
    Ok(list
        .iter()
        .map(|entry| {
            let field = |key: &str| entry["stats"][key].as_u64().unwrap_or(0);
            BlockStats {
                rd_bytes: field("rd_bytes"),
                wr_bytes: field("wr_bytes"),
                rd_operations: field("rd_operations"),
                wr_operations: field("wr_operations"),
                flush_operations: field("flush_operations"),
                unmap_operations: field("unmap_operations"),
            }
        })
        .collect())
}

/// Blockstats counters are summed across disks.
#[test]
fn parse_blockstats_sums_across_devices() {
    let body = r#"[
        {"stats": {
            "rd_operations": 100,
            "wr_operations": 200,
            "flush_operations": 3,
            "unmap_operations": 1,
            "rd_bytes": 4096,
            "wr_bytes": 8192
        }},
        {"stats": {
            "rd_operations": 50,
            "wr_operations": 25,
            "flush_operations": 0,
            "unmap_operations": 0,
            "rd_bytes": 2048,
            "wr_bytes": 1024
        }}
    ]"#;
    let p = parse_blockstats(stats(body)).unwrap().unwrap();
    assert_eq!(p.read_io_count, 150);
    assert_eq!(p.write_io_count, 225);
    assert_eq!(p.other_io_count, 4);
    assert_eq!(p.read_bytes_total, 6144);
    assert_eq!(p.write_bytes_total, 9216);
    assert_eq!(p.total_io_count(), 150 + 225 + 4);
}

/// Empty blockstats parses as unavailable.
#[test]
fn parse_blockstats_empty_returns_unavailable() {
    let p = parse_blockstats(stats("[]")).unwrap();
    assert!(p.is_none());
}

#[test]
fn parse_blockstats_saturates_and_reports() {
    let device = BlockStats {
        rd_bytes: u64::MAX,
        wr_bytes: 1,
        rd_operations: u64::MAX - 1,
        wr_operations: 0,
        flush_operations: u64::MAX,
        unmap_operations: u64::MAX,
    };
    let p = parse_blockstats(Ok(vec![device, device])).unwrap().unwrap();
    assert_eq!(p.read_bytes_total, u64::MAX);
    assert_eq!(p.write_bytes_total, 2);
    assert_eq!(p.read_io_count, u64::MAX);
    assert_eq!(p.write_io_count, 0);
    assert_eq!(p.other_io_count, u64::MAX);
    match parse_blockstats(Err("bad".to_string())).unwrap_err() {
        QemuError::Parse(text) => assert_eq!(text, "decode query-blockstats: bad"),
        other => panic!("{other:?}"),
    }
}

#[test]
fn metrics_replies_unwrap() {
    assert_eq!(parse_metrics(Ok("body".to_string())).unwrap(), "body");
    match parse_metrics(Err("bad".to_string())).unwrap_err() {
        QemuError::Parse(text) => assert_eq!(text, "decode x-query-prometheus-metrics: bad"),
        other => panic!("{other:?}"),
    }
}

fn mapping() -> Vec<VqMapping> {
    vec![VqMapping { iothread: "iot0".to_string(), vqs: vec![0, 1] }]
}

#[test]
fn mapping_replies_unwrap() {
    let bad = || Err("bad".to_string());
    assert!(parse_vq_mapping("", bad()).unwrap().is_empty());
    assert!(parse_vq_mapping("null", bad()).unwrap().is_empty());
    assert_eq!(parse_vq_mapping("[...]", Ok(mapping())).unwrap(), mapping());
    match parse_vq_mapping("null ", bad()).unwrap_err() {
        QemuError::Parse(text) => assert_eq!(text, "parse qom-get iothread-vq-mapping: bad"),
        other => panic!("{other:?}"),
    }
}

fn rendered(command: &QmpCommand) -> String {
    let mut out = command.name.clone();
    for argument in &command.arguments {
        let value = match &argument.value {
            QmpValue::Text(s) => s.clone(),
            QmpValue::Number(n) => n.to_string(),
            QmpValue::Mapping(m) => format!("{} entries", m.len()),
        };
        out = format!("{out} {}={value}", argument.key);
    }
    out
}

fn refusal(result: Result<QmpCommand, QemuError>) -> String {
    match result {
        Err(QemuError::Parse(text)) => text,
        other => panic!("{other:?}"),
    }
}

#[test]
fn commands_carry_their_arguments() {
    let qmp = LibvirtQmp::new("some-uuid".to_string());
    assert_eq!(qmp.uuid, "some-uuid");
    let plain = qmp.add_io_thread("iot3", None).unwrap();
    assert_eq!(rendered(&plain), "object-add qom-type=iothread id=iot3");
    let mut props = IoThreadProperties::default();
    assert_eq!(
        rendered(&qmp.add_io_thread("iot3", Some(&props)).unwrap()),
        "object-add qom-type=iothread id=iot3"
    );
    props.poll_max_ns = Some(32);
    props.thread_pool_max = Some(-1);
    props.poll_shrink = Some(0);
    assert_eq!(
        rendered(&qmp.add_io_thread("iot3", Some(&props)).unwrap()),
        "object-add qom-type=iothread id=iot3 poll-max-ns=32 poll-shrink=0 thread-pool-max=-1"
    );
    assert_eq!(rendered(&qmp.del_io_thread("iot3").unwrap()), "object-del id=iot3");
    assert_eq!(rendered(&qmp.query_prometheus_metrics()), "x-query-prometheus-metrics");
    assert_eq!(rendered(&qmp.query_blockstats()), "query-blockstats");
    assert_eq!(
        rendered(&qmp.set_vq_mapping("/d", mapping()).unwrap()),
        "x-virtio-scsi-set-iothread-vq-mapping path=/d iothread-vq-mapping=1 entries"
    );
    assert_eq!(
        rendered(&qmp.query_vq_mapping("/d").unwrap()),
        "qom-get path=/d property=iothread-vq-mapping"
    );
}

#[test]
fn commands_refuse_blank_arguments() {
    let qmp = LibvirtQmp::new(String::new());
    assert_eq!(refusal(qmp.add_io_thread(" \t", None)), "iothread id must be non-empty");
    assert_eq!(refusal(qmp.del_io_thread("")), "iothread id must be non-empty");
    assert_eq!(refusal(qmp.set_vq_mapping("\n", mapping())), "device path must be non-empty");
    assert_eq!(
        refusal(qmp.set_vq_mapping("/d", Vec::new())),
        "iothread-vq-mapping must contain at least one entry"
    );
    assert_eq!(refusal(qmp.query_vq_mapping(" ")), "device path must be non-empty");
}

fn candidate(uuid: Option<u128>, xml: Option<&str>) -> VmCandidate {
    VmCandidate { uuid, xml: xml.map(|x| x.to_string()) }
}

#[test]
fn vms_are_chosen_by_controller_and_sorted() {
    let good = "<controller type='scsi' model='virtio-scsi'/>";
    let vms = vec![
        candidate(Some(9), Some(good)),
        candidate(None, Some(good)),
        candidate(Some(1), None),
        candidate(Some(5), Some("<disk/>")),
        candidate(Some(2), Some(good)),
        candidate(Some(9), Some(good)),
    ];
    let conn = LibvirtConn::new("qemu:///system".to_string());
    assert_eq!(conn.list_qemu_vms(&vms), vec![2, 9, 9]);
    assert!(conn.list_qemu_vms(&Vec::new()).is_empty());
}

#[test]
fn pid_comes_from_the_first_file_that_holds_one() {
    let file = |s: &str| Some(s.to_string());
    let conn = LibvirtConn::new(String::new());
    assert_eq!(conn.qemu_host_pid(&file(" 12\n"), &file("13")), 12);
    assert_eq!(conn.qemu_host_pid(&file("x"), &file("13")), 13);
    assert_eq!(conn.qemu_host_pid(&file("0"), &file("-4")), 0);
    assert_eq!(conn.qemu_host_pid(&None, &file("+7")), 7);
    assert_eq!(conn.qemu_host_pid(&None, &None), 0);
    assert_eq!(conn.qemu_host_pid(&file("2147483648"), &file("1 2")), 0);
}

#[test]
fn failures_name_their_call() {
    assert_eq!(libvirt_failure("list_all_domains", "no").message(), "io: list_all_domains: no");
    assert_eq!(spawn_failure("list", "no").message(), "parse: spawn_blocking list: no");
}
