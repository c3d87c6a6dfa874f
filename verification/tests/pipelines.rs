use feedrick::cursor::{
    interpret_key, render_frame, view_step, Cursor, KeyInput, StepEffect, ViewCommand,
};
use feedrick::filter::{extract, CopyError, FilterMode, ProgressEvent};
use feedrick::record::{Log, Record};
use feedrick::scan::{scan, ScanOutcome};
use feedrick::sortpipe::sort_copy;

fn rec(offset: u64, payload: &[u8]) -> Record {
    Record { offset, payload: payload.to_vec() }
}

fn msg(author: &str, timestamp: f64) -> Vec<u8> {
    format!(
        "{{\"value\":{{\"author\":\"{}\",\"timestamp\":{}}}}}",
        author, timestamp
    )
    .into_bytes()
}

/// The order-preserving key of a timestamp, as the command-line layer supplies
/// it to the sort pipeline: sign-folded IEEE 754 bits.
fn time_key(timestamp: f64) -> u64 {
    let bits = timestamp.to_bits();
    if bits >= 1u64 << 63 {
        !bits
    } else {
        bits + (1u64 << 63)
    }
}

fn scenario_log() -> Log {
    Log {
        records: vec![
            rec(0, &msg("@A", 300.0)),
            rec(50, &msg("@B", 100.0)),
            rec(120, &msg("@A", 200.0)),
        ],
        end: 200,
    }
}

#[test]
fn extract_keeps_matching_feed_in_order() {
    let log = scenario_log();
    let out = extract(&log, FilterMode::Keep, b"@A").unwrap();
    let offsets: Vec<u64> = out.records.iter().map(|r| r.offset).collect();
    assert_eq!(offsets, vec![0, 120]);
    assert_eq!(out.records[0].payload, msg("@A", 300.0));
    assert_eq!(out.records[1].payload, msg("@A", 200.0));
    assert_eq!(out.stats.count, 2);
    assert_eq!(
        out.stats.bytes,
        (msg("@A", 300.0).len() + msg("@A", 200.0).len()) as u64
    );
}

#[test]
fn extract_inverted_keeps_complement_of_decoded_authors() {
    let log = scenario_log();
    let out = extract(&log, FilterMode::Exclude, b"@A").unwrap();
    let offsets: Vec<u64> = out.records.iter().map(|r| r.offset).collect();
    assert_eq!(offsets, vec![50]);
    assert_eq!(out.records[0].payload, msg("@B", 100.0));
}

#[test]
fn extract_drops_undecodable_records_in_both_modes() {
    let log = Log {
        records: vec![
            rec(0, &msg("@A", 1.0)),
            rec(40, b"{broken"),
            rec(80, b"{\"value\":{\"timestamp\":5}}"),
        ],
        end: 100,
    };
    let kept = extract(&log, FilterMode::Keep, b"@A").unwrap();
    let inverted = extract(&log, FilterMode::Exclude, b"@A").unwrap();
    let kept_offsets: Vec<u64> = kept.records.iter().map(|r| r.offset).collect();
    let inverted_offsets: Vec<u64> = inverted.records.iter().map(|r| r.offset).collect();
    assert_eq!(kept_offsets, vec![0]);
    assert_eq!(inverted_offsets, Vec::<u64>::new());
}

#[test]
fn extract_partitions_fully_decoded_log() {
    let log = scenario_log();
    let kept = extract(&log, FilterMode::Keep, b"@A").unwrap();
    let inverted = extract(&log, FilterMode::Exclude, b"@A").unwrap();
    let mut offsets: Vec<u64> = kept
        .records
        .iter()
        .chain(inverted.records.iter())
        .map(|r| r.offset)
        .collect();
    offsets.sort();
    assert_eq!(offsets, vec![0, 50, 120]);
    assert_eq!(kept.records.len() + inverted.records.len(), 3);
}

#[test]
fn extract_rejects_empty_source() {
    let log = Log { records: vec![], end: 0 };
    assert!(matches!(
        extract(&log, FilterMode::Keep, b"@A"),
        Err(CopyError::EmptyInput)
    ));
}

#[test]
fn extract_reports_progress_on_writes_and_percentage_advances() {
    let a = msg("@A", 1.0);
    let log = Log {
        records: vec![rec(0, &a), rec(60, &msg("@B", 2.0))],
        end: 100,
    };
    let out = extract(&log, FilterMode::Keep, b"@A").unwrap();
    let len = a.len() as u64;
    assert_eq!(
        out.progress,
        vec![
            ProgressEvent { pct: 0, count: 1, bytes: len },
            ProgressEvent { pct: 60, count: 1, bytes: len },
        ]
    );
}

#[test]
fn extract_stays_silent_while_percentage_holds() {
    let log = Log {
        records: vec![rec(0, &msg("@B", 1.0)), rec(1, &msg("@B", 2.0))],
        end: 300,
    };
    let out = extract(&log, FilterMode::Keep, b"@A").unwrap();
    assert_eq!(out.progress, Vec::<ProgressEvent>::new());
    assert_eq!(out.stats.count, 0);
    assert_eq!(out.stats.bytes, 0);
}

#[test]
fn sort_orders_by_timestamp_and_accesses_by_offset() {
    let log = scenario_log();
    let keys: Vec<u64> = log
        .records
        .iter()
        .map(|r| {
            let v: serde_json::Value = serde_json::from_slice(&r.payload).unwrap();
            let ts = v
                .get("value")
                .and_then(|v| v.get("timestamp"))
                .and_then(|v| v.as_f64())
                .unwrap_or(0.0);
            time_key(ts)
        })
        .collect();
    let out = sort_copy(&log, &keys).unwrap();
    let offsets: Vec<u64> = out.records.iter().map(|r| r.offset).collect();
    assert_eq!(offsets, vec![50, 120, 0]);
    assert_eq!(out.count, 3);
    assert_eq!(out.records[0].payload, msg("@B", 100.0));
    assert_eq!(out.records[1].payload, msg("@A", 200.0));
    assert_eq!(out.records[2].payload, msg("@A", 300.0));
}

#[test]
fn sort_breaks_timestamp_ties_by_offset() {
    let log = Log {
        records: vec![
            rec(0, &msg("@A", 7.0)),
            rec(30, &msg("@B", 7.0)),
            rec(90, &msg("@C", 7.0)),
        ],
        end: 100,
    };
    let keys = vec![time_key(7.0), time_key(7.0), time_key(7.0)];
    let out = sort_copy(&log, &keys).unwrap();
    let offsets: Vec<u64> = out.records.iter().map(|r| r.offset).collect();
    assert_eq!(offsets, vec![0, 30, 90]);
}

#[test]
fn sort_places_undecodable_timestamps_at_time_zero() {
    let log = Log {
        records: vec![rec(0, &msg("@A", 5.0)), rec(33, b"{broken"), rec(70, &msg("@B", -2.0))],
        end: 100,
    };
    let keys = vec![time_key(5.0), time_key(0.0), time_key(-2.0)];
    let out = sort_copy(&log, &keys).unwrap();
    let offsets: Vec<u64> = out.records.iter().map(|r| r.offset).collect();
    assert_eq!(offsets, vec![70, 33, 0]);
    assert_eq!(out.records[1].payload, b"{broken".to_vec());
}

#[test]
fn sort_rejects_empty_source() {
    let log = Log { records: vec![], end: 0 };
    let keys: Vec<u64> = vec![];
    assert!(matches!(sort_copy(&log, &keys), Err(CopyError::EmptyInput)));
}

#[test]
fn scan_visits_every_record_and_never_halts() {
    let log = Log {
        records: vec![
            rec(0, &msg("@A", 1.0)),
            rec(40, b"{broken"),
            rec(80, &msg("@B", 2.0)),
            rec(130, b"not json at all"),
        ],
        end: 150,
    };
    let report = scan(&log);
    assert_eq!(report.len(), 4);
    let offsets: Vec<u64> = report.iter().map(|e| e.offset).collect();
    assert_eq!(offsets, vec![0, 40, 80, 130]);
    assert!(matches!(report[0].outcome, ScanOutcome::Valid));
    assert!(matches!(report[2].outcome, ScanOutcome::Valid));
    match &report[1].outcome {
        ScanOutcome::Broken(m) => assert!(!m.is_empty()),
        ScanOutcome::Valid => panic!("malformed record reported as valid"),
    }
    match &report[3].outcome {
        ScanOutcome::Broken(m) => assert!(!m.is_empty()),
        ScanOutcome::Valid => panic!("malformed record reported as valid"),
    }
}

#[test]
fn cursor_stops_at_both_bounds() {
    let log = scenario_log();
    let mut cursor = Cursor::first(&log);
    assert!(!cursor.retreat());
    assert!(!cursor.retreat());
    assert_eq!(cursor.pos, 0);
    assert!(cursor.advance(&log));
    assert!(cursor.advance(&log));
    assert_eq!(cursor.pos, 2);
    assert!(!cursor.advance(&log));
    assert!(!cursor.advance(&log));
    assert_eq!(cursor.pos, 2);
    assert!(cursor.retreat());
    assert_eq!(cursor.pos, 1);
}

#[test]
fn render_frame_pretty_prints_the_current_record() {
    let log = scenario_log();
    let cursor = Cursor::first(&log);
    let frame = render_frame(&cursor, &log);
    assert_eq!(frame.offset, 0);
    let v: serde_json::Value = serde_json::from_slice(&msg("@A", 300.0)).unwrap();
    assert_eq!(frame.body, Some(serde_json::to_string_pretty(&v).unwrap()));
}

#[test]
fn render_frame_signals_undecodable_payload() {
    let log = Log { records: vec![rec(5, b"{broken")], end: 50 };
    let cursor = Cursor::first(&log);
    let frame = render_frame(&cursor, &log);
    assert_eq!(frame.offset, 5);
    assert_eq!(frame.body, None);
}

#[test]
fn key_map_follows_the_viewer_contract() {
    assert_eq!(interpret_key(KeyInput::Char('q')), ViewCommand::Quit);
    assert_eq!(interpret_key(KeyInput::Esc), ViewCommand::Quit);
    assert_eq!(interpret_key(KeyInput::Interrupt), ViewCommand::Quit);
    assert_eq!(interpret_key(KeyInput::Up), ViewCommand::Retreat);
    assert_eq!(interpret_key(KeyInput::Left), ViewCommand::Retreat);
    assert_eq!(interpret_key(KeyInput::Char('p')), ViewCommand::Retreat);
    assert_eq!(interpret_key(KeyInput::Char('k')), ViewCommand::Retreat);
    assert_eq!(interpret_key(KeyInput::Down), ViewCommand::Advance);
    assert_eq!(interpret_key(KeyInput::Right), ViewCommand::Advance);
    assert_eq!(interpret_key(KeyInput::Char('n')), ViewCommand::Advance);
    assert_eq!(interpret_key(KeyInput::Char('j')), ViewCommand::Advance);
    assert_eq!(interpret_key(KeyInput::Char('x')), ViewCommand::LogChar('x'));
    assert_eq!(interpret_key(KeyInput::Other), ViewCommand::Ignore);
}

#[test]
fn view_step_renders_on_movement_and_notices_at_bounds() {
    let log = scenario_log();
    let mut cursor = Cursor::first(&log);
    match view_step(&mut cursor, &log, KeyInput::Char('j')) {
        StepEffect::Render(frame) => assert_eq!(frame.offset, 50),
        _ => panic!("advance into the log must render"),
    }
    assert_eq!(cursor.pos, 1);
    match view_step(&mut cursor, &log, KeyInput::Char('k')) {
        StepEffect::Render(frame) => assert_eq!(frame.offset, 0),
        _ => panic!("retreat into the log must render"),
    }
    assert_eq!(cursor.pos, 0);
    assert!(matches!(
        view_step(&mut cursor, &log, KeyInput::Up),
        StepEffect::Notice
    ));
    assert_eq!(cursor.pos, 0);
    assert!(matches!(
        view_step(&mut cursor, &log, KeyInput::Char('q')),
        StepEffect::Quit
    ));
    assert!(matches!(
        view_step(&mut cursor, &log, KeyInput::Char('z')),
        StepEffect::LogChar('z')
    ));
    assert!(matches!(
        view_step(&mut cursor, &log, KeyInput::Other),
        StepEffect::Ignore
    ));
    assert_eq!(cursor.pos, 0);
}
