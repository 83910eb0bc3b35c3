use chordsense::lab::{
    assemble_lab_data, lab_records, parse_lab_line, read_record, LabTimes, LineOutcome,
};
use chordsense::timeline::TimeKey;

fn t(x: i64) -> Option<TimeKey> {
    Some(TimeKey { ordinal: Some(x) })
}

#[test]
fn records_of_a_lab_file() {
    let text = "0.000 1.500 N\n\n  1.500\t3.250 A:min   7 \r\nbroken line\n3.250 4.0 C:maj/5";
    let recs = lab_records(text);
    assert_eq!(recs.len(), 4);
    assert_eq!(recs[0].line_no, 1);
    let f0 = recs[0].fields.as_ref().unwrap();
    assert_eq!((f0.start.as_str(), f0.end.as_str(), f0.chord.as_str()), ("0.000", "1.500", "N"));
    assert_eq!(recs[1].line_no, 3);
    assert_eq!(recs[1].line, "1.500\t3.250 A:min   7");
    let f1 = recs[1].fields.as_ref().unwrap();
    assert_eq!(f1.chord, "A:min 7");
    assert_eq!(recs[2].line_no, 4);
    assert!(recs[2].fields.is_none());
    assert_eq!(recs[2].line, "broken line");
    assert_eq!(recs[3].line_no, 5);
    assert_eq!(recs[3].fields.as_ref().unwrap().chord, "C:maj/5");
}

#[test]
fn blank_lines_give_no_record() {
    assert!(parse_lab_line(7, " \t ").is_none());
    assert!(lab_records("\n\n   \n").is_empty());
    assert!(lab_records("").is_empty());
}

#[test]
fn assembling_skips_unreadable_times() {
    let recs = lab_records("0 1 A\nx 2 B\n2 y C\nshort\n2 5 D:min\n");
    let times = vec![
        LabTimes { start: t(0), end: t(10) },
        LabTimes { start: None, end: None },
        LabTimes { start: t(20), end: None },
        LabTimes { start: None, end: None },
        LabTimes { start: t(20), end: t(50) },
    ];
    let data = assemble_lab_data(&recs, &times).unwrap();
    assert_eq!(data.chords.len(), 2);
    assert_eq!(data.chords[0].chord, "A");
    assert_eq!(data.chords[1].chord, "D:min");
    assert_eq!(data.duration.ordinal, Some(50));
}

#[test]
fn no_segment_gives_no_timeline() {
    let recs = lab_records("short line\n");
    let times = vec![LabTimes { start: None, end: None }];
    assert!(assemble_lab_data(&recs, &times).is_none());
    assert!(assemble_lab_data(&Vec::new(), &Vec::new()).is_none());
}

#[test]
fn duration_is_at_least_zero() {
    let recs = lab_records("a b C\n");
    let times = vec![LabTimes { start: t(-30), end: t(-10) }];
    let data = assemble_lab_data(&recs, &times).unwrap();
    assert_eq!(data.duration.ordinal, Some(0));
    let times = vec![LabTimes { start: t(0), end: Some(TimeKey { ordinal: None }) }];
    let data = assemble_lab_data(&recs, &times).unwrap();
    assert_eq!(data.duration.ordinal, Some(0));
}

#[test]
fn reading_records_decides_the_outcome() {
    let recs = lab_records("0 1 A\nshort\n");
    let (o, kept) = read_record(&recs[0], t(0), t(10));
    assert_eq!(o, LineOutcome::Segment);
    assert_eq!((kept.start.unwrap().ordinal, kept.end.unwrap().ordinal), (Some(0), Some(10)));
    let (o, kept) = read_record(&recs[0], None, t(10));
    assert_eq!(o, LineOutcome::BadStart);
    assert!(kept.start.is_none() && kept.end.is_none());
    let (o, kept) = read_record(&recs[0], t(0), None);
    assert_eq!(o, LineOutcome::BadEnd);
    assert!(kept.start.is_some() && kept.end.is_none());
    let (o, _) = read_record(&recs[1], t(0), t(1));
    assert_eq!(o, LineOutcome::Malformed);
}

fn timeline(text: &str) -> Vec<(Option<i64>, Option<i64>, String)> {
    let recs = lab_records(text);
    let times: Vec<LabTimes> = recs
        .iter()
        .map(|r| {
            let read = |s: &str| s.parse::<i64>().ok().map(|x| TimeKey { ordinal: Some(x) });
            let (s, e) = match &r.fields {
                Some(f) => (read(&f.start), read(&f.end)),
                None => (None, None),
            };
            read_record(r, s, e).1
        })
        .collect();
    match assemble_lab_data(&recs, &times) {
        Some(d) => {
            let mut v: Vec<_> = d
                .chords
                .iter()
                .map(|c| (c.start.ordinal, c.end.ordinal, c.chord.clone()))
                .collect();
            v.push((d.duration.ordinal, None, String::new()));
            v
        }
        None => Vec::new(),
    }
}

#[test]
fn deleting_a_skipped_line_keeps_the_timeline() {
    let full = "0 1 A\n\nbad line\nx 2 B\n1 y C\n2 5 D:min\n";
    let lines: Vec<&str> = full.lines().collect();
    for skip in 1..5 {
        let kept: Vec<&str> =
            lines.iter().enumerate().filter(|(i, _)| *i != skip).map(|(_, l)| *l).collect();
        assert_eq!(timeline(&kept.join("\n")), timeline(full));
    }
}
