use add_umi::diagnostics::{show, MissReporter, MISS_REPORT_CAP};
use add_umi::pipeline::{UmiMover, UMI_TAG};

#[test]
fn umi_tag_is_rx() {
    assert_eq!(UMI_TAG, "RX");
}

#[test]
fn matched_record_gets_umi() {
    let mut mover = UmiMover::new(b"TAG".to_vec());
    let step = mover.process_name(b"{TAG}={ACGT},{IIII};");
    assert_eq!(step.umi, Some(b"ACGT".to_vec()));
    assert_eq!(step.notice, None);
    assert_eq!(mover.reported(), 0);
}

#[test]
fn missed_record_is_reported_and_unchanged() {
    let mut mover = UmiMover::new(b"TAG".to_vec());
    let step = mover.process_name(b"randomtext");
    assert_eq!(step.umi, None);
    assert_eq!(step.notice, Some("randomtext".to_string()));
    assert_eq!(mover.reported(), 1);
}

#[test]
fn steps_follow_input_order() {
    let names: Vec<&[u8]> = vec![
        b"{TAG}={AAA},{q};",
        b"none",
        b"{TAG}={CCC},{q};",
        b"{tag}={GGG},{q};",
        b"{X}={1},{q};{TAG}={TTT},{q};",
    ];
    let mut mover = UmiMover::new(b"TAG".to_vec());
    let steps: Vec<_> = names.iter().map(|n| mover.process_name(n)).collect();
    assert_eq!(steps.len(), names.len());
    let umis: Vec<Option<Vec<u8>>> = steps.iter().map(|s| s.umi.clone()).collect();
    assert_eq!(
        umis,
        vec![
            Some(b"AAA".to_vec()),
            None,
            Some(b"CCC".to_vec()),
            None,
            Some(b"TTT".to_vec()),
        ]
    );
    let notices: Vec<bool> = steps.iter().map(|s| s.notice.is_some()).collect();
    assert_eq!(notices, vec![false, true, false, true, false]);
    assert_eq!(mover.reported(), 2);
}

#[test]
fn at_most_one_hundred_notices() {
    let mut mover = UmiMover::new(b"TAG".to_vec());
    let mut notices = 0;
    let mut written = 0;
    for i in 0..150 {
        let name = format!("read{}", i);
        let step = mover.process_name(name.as_bytes());
        assert_eq!(step.umi, None);
        if let Some(text) = step.notice {
            assert!(i < 100);
            assert_eq!(text, name);
            notices += 1;
        }
        written += 1;
    }
    assert_eq!(notices, 100);
    assert_eq!(written, 150);
    assert_eq!(mover.reported(), 100);
}

#[test]
fn matches_after_the_cap_still_get_umi() {
    let mut mover = UmiMover::new(b"TAG".to_vec());
    for _ in 0..120 {
        mover.process_name(b"miss");
    }
    let step = mover.process_name(b"{TAG}={ACGT},{IIII};");
    assert_eq!(step.umi, Some(b"ACGT".to_vec()));
    assert_eq!(step.notice, None);
}

#[test]
fn runs_do_not_share_the_count() {
    let mut first = UmiMover::new(b"TAG".to_vec());
    for _ in 0..100 {
        first.process_name(b"miss");
    }
    let mut second = UmiMover::new(b"TAG".to_vec());
    assert_eq!(second.reported(), 0);
    assert!(second.process_name(b"miss").notice.is_some());
    assert!(first.process_name(b"miss").notice.is_none());
}

#[test]
fn reporter_stops_at_cap() {
    let mut reporter = MissReporter::new();
    for _ in 0..MISS_REPORT_CAP {
        assert_eq!(reporter.report_miss(b"abc"), Some("abc".to_string()));
    }
    assert_eq!(reporter.reported(), 100);
    assert_eq!(reporter.report_miss(b"abc"), None);
    assert_eq!(reporter.reported(), 100);
}

#[test]
fn show_replaces_invalid_bytes() {
    assert_eq!(show(b"abc"), "abc");
    assert_eq!(show(&[0x66, 0x6f, 0xff, 0x6f]), "fo\u{FFFD}o");
    assert_eq!(show("é".as_bytes()), "é");
    assert_eq!(show(b""), "");
}

#[test]
fn notice_renders_name_lossily() {
    let mut mover = UmiMover::new(b"TAG".to_vec());
    let step = mover.process_name(&[0x72, 0xfe, 0x64]);
    assert_eq!(step.notice, Some("r\u{FFFD}d".to_string()));
}
