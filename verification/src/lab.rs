//! The `.lab` chord-annotation format: one segment per line, written as a
//! start time, an end time and a chord name separated by whitespace (the
//! chord name may hold spaces itself). Blank lines are ignored; a line with
//! fewer than three fields is malformed.

use vstd::prelude::*;
use crate::text::{join, join_from, lines, split_lines, split_words, trim, trim_str, words};
use crate::timeline::{build_lab_data, latest_end, ChordSegment, LabData, TimeKey};

verus! {

broadcast use vstd::string::group_string_axioms;

/// The fields of a well-formed `.lab` line, as written.
#[derive(Clone, Debug)]
pub struct LabFields {
    pub start: String,
    pub end: String,
    pub chord: String,
}

/// A non-blank line of a `.lab` file: its number (counted from 1), its text
/// without surrounding whitespace, and its fields where it is well formed.
#[derive(Clone, Debug)]
pub struct LabRecord {
    pub line_no: usize,
    pub line: String,
    pub fields: Option<LabFields>,
}

/// A record taken by its characters.
pub struct LabRecordView {
    pub line_no: nat,
    pub line: Seq<char>,
    pub fields: Option<(Seq<char>, Seq<char>, Seq<char>)>,
}

impl View for LabRecord {
    type V = LabRecordView;

    open spec fn view(&self) -> LabRecordView {
        LabRecordView {
            line_no: self.line_no as nat,
            line: self.line@,
            fields: match self.fields {
                Some(f) => Some((f.start@, f.end@, f.chord@)),
                None => None,
            },
        }
    }
}

/// Records taken by their characters.
pub open spec fn records_view(rs: Seq<LabRecord>) -> Seq<LabRecordView> {
    rs.map_values(|r: LabRecord| r@)
}

/// The record of line `line_no`, whose text without surrounding whitespace is
/// `trimmed`: its first two words are the start and end times, and the others,
/// joined by single spaces, the chord.
pub open spec fn record_of(line_no: nat, trimmed: Seq<char>) -> LabRecordView {
    let ws = words(trimmed);
    LabRecordView {
        line_no,
        line: trimmed,
        fields: if ws.len() < 3 {
            None
        } else {
            Some((ws[0], ws[1], join(ws.skip(2), " "@)))
        },
    }
}

/// The records of the non-blank lines among `ls`, the first of which is line
/// number `first`.
pub open spec fn records_from(ls: Seq<Seq<char>>, first: nat) -> Seq<LabRecordView>
    decreases ls.len(),
{
    if ls.len() == 0 {
        seq![]
    } else {
        let rest = records_from(ls.drop_first(), first + 1);
        if trim(ls[0]).len() == 0 {
            rest
        } else {
            seq![record_of(first, trim(ls[0]))] + rest
        }
    }
}

/// The records of the `.lab` text `text`.
pub open spec fn lab_records_of(text: Seq<char>) -> Seq<LabRecordView> {
    records_from(lines(text), 1)
}

/// The record of line `line_no`, whose text is `line`, or `None` where the
/// line is blank.
pub fn parse_lab_line(line_no: usize, line: &str) -> (r: Option<LabRecord>)
    ensures
        r is None <==> trim(line@).len() == 0,
        r matches Some(rec) ==> rec@ == record_of(line_no as nat, trim(line@)),
{
    let trimmed = trim_str(line);
    if trimmed.as_str().unicode_len() == 0 {
        return None;
    }
    let parts = split_words(trimmed.as_str());
    let fields = if parts.len() < 3 {
        None
    } else {
        let start = word_at(&parts, 0);
        let end = word_at(&parts, 1);
        let chord = join_from(&parts, 2, " ");
        Some(LabFields { start, end, chord })
    };
    let rec = LabRecord { line_no, line: trimmed, fields };
    proof {
        let ws = words(trim(line@));
        assert(parts.deep_view() == ws);
    }
    Some(rec)
}

fn word_at(parts: &Vec<String>, i: usize) -> (r: String)
    requires
        i < parts@.len(),
    ensures
        r@ == parts.deep_view()[i as int],
{
    parts[i].clone()
}

/// The records of the non-blank lines of the `.lab` text `text`, in order.
pub fn lab_records(text: &str) -> (r: Vec<LabRecord>)
    ensures
        records_view(r@) == lab_records_of(text@),
{
    let ls = split_lines(text);
    let ghost lv = ls.deep_view();
    let mut out: Vec<LabRecord> = Vec::new();
    let mut i: usize = 0;
    assert(lv.skip(0) == lv);
    while i < ls.len()
        invariant
            i <= ls@.len(),
            lv == ls.deep_view(),
            lv == lines(text@),
            records_from(lv, 1) == records_view(out@) + records_from(lv.skip(i as int), (i + 1) as nat),
        decreases ls@.len() - i,
    {
        let ghost rest = lv.skip(i as int);
        assert(rest[0] == ls[i as int]@);
        assert(rest.drop_first() == lv.skip(i + 1));
        let ghost prev = out@;
        match parse_lab_line(i + 1, ls[i].as_str()) {
            Some(rec) => {
                out.push(rec);
                assert(records_view(out@) == records_view(prev).push(rec@));
            },
            None => {},
        }
        i += 1;
    }
    assert(lv.skip(i as int).len() == 0);
    out
}


/// The times read from the start and end fields of a record; `None` for a
/// field that could not be read as a number of seconds.
#[derive(Clone, Copy, Debug)]
pub struct LabTimes {
    pub start: Option<TimeKey>,
    pub end: Option<TimeKey>,
}

/// A segment taken by its times and the characters of its chord.
pub open spec fn segment_view(seg: ChordSegment) -> (TimeKey, TimeKey, Seq<char>) {
    (seg.start, seg.end, seg.chord@)
}

/// The segments of records whose fields are all present and whose times
/// could both be read, in order.
pub open spec fn segments_of(recs: Seq<LabRecordView>, times: Seq<LabTimes>) -> Seq<
    (TimeKey, TimeKey, Seq<char>),
>
    decreases recs.len(),
{
    if recs.len() == 0 || times.len() == 0 {
        seq![]
    } else {
        let rest = segments_of(recs.drop_last(), times.drop_last());
        match (recs.last().fields, times.last().start, times.last().end) {
            (Some((_, _, chord)), Some(start), Some(end)) => rest.push((start, end, chord)),
            _ => rest,
        }
    }
}

/// The chord timeline of `records`, whose times `times[i]` gives as read from
/// `records[i]`: a segment for each record with all fields and both times,
/// with the latest end (and at least zero) as its length; `None` where no
/// record gives a segment.
pub fn assemble_lab_data(records: &Vec<LabRecord>, times: &Vec<LabTimes>) -> (r: Option<LabData>)
    requires
        records@.len() == times@.len(),
    ensures
        r is None <==> segments_of(records_view(records@), times@).len() == 0,
        r matches Some(data) ==> {
            &&& data.chords@.map_values(|c: ChordSegment| segment_view(c)) == segments_of(
                records_view(records@),
                times@,
            )
            &&& data.duration == latest_end(data.chords@)
        },
{
    let mut chords: Vec<ChordSegment> = Vec::new();
    let mut i: usize = 0;
    while i < records.len()
        invariant
            i <= records@.len() == times@.len(),
            chords@.map_values(|c: ChordSegment| segment_view(c)) == segments_of(
                records_view(records@.take(i as int)),
                times@.take(i as int),
            ),
        decreases records@.len() - i,
    {
        let ghost prev = chords@;
        assert(records_view(records@.take(i + 1)).drop_last() == records_view(
            records@.take(i as int),
        ));
        assert(times@.take(i + 1).drop_last() == times@.take(i as int));
        match (&records[i].fields, times[i].start, times[i].end) {
            (Some(fields), Some(start), Some(end)) => {
                let seg = ChordSegment { start, end, chord: fields.chord.clone() };
                chords.push(seg);
                assert(chords@.map_values(|c: ChordSegment| segment_view(c)) == prev.map_values(
                    |c: ChordSegment| segment_view(c),
                ).push(segment_view(seg)));
            },
            _ => {},
        }
        i += 1;
    }
    assert(records@.take(i as int) == records@);
    assert(times@.take(i as int) == times@);
    build_lab_data(chords)
}


// ---------------------------------------------------------------------------
// Reading the times of a record
// ---------------------------------------------------------------------------

/// How a record is taken into the timeline.
#[derive(Clone, Copy, Debug, PartialEq, Eq)]
pub enum LineOutcome {
    /// Fewer than three fields.
    Malformed,
    /// The start time is no number.
    BadStart,
    /// The end time is no number.
    BadEnd,
    /// A segment of the timeline.
    Segment,
}

/// How a record with the given fields is taken, where `start` and `end` are
/// the times read from its first two fields (`None` where a field is no
/// number): the fields are checked first, then the start, then the end.
pub open spec fn outcome_of(
    fields: Option<(Seq<char>, Seq<char>, Seq<char>)>,
    start: Option<TimeKey>,
    end: Option<TimeKey>,
) -> LineOutcome {
    match (fields, start, end) {
        (None, _, _) => LineOutcome::Malformed,
        (Some(_), None, _) => LineOutcome::BadStart,
        (Some(_), Some(_), None) => LineOutcome::BadEnd,
        (Some(_), Some(_), Some(_)) => LineOutcome::Segment,
    }
}

/// The times kept of a record: none for a malformed record or an unreadable
/// start (the end is then not read), else the start and the end as read.
pub open spec fn times_of(
    fields: Option<(Seq<char>, Seq<char>, Seq<char>)>,
    start: Option<TimeKey>,
    end: Option<TimeKey>,
) -> LabTimes {
    match (fields, start) {
        (Some(_), Some(s)) => LabTimes { start: Some(s), end },
        _ => LabTimes { start: None, end: None },
    }
}

/// How `rec` is taken, and the times kept of it, where `start` and `end` are
/// the times read from its start and end fields.
pub fn read_record(rec: &LabRecord, start: Option<TimeKey>, end: Option<TimeKey>) -> (r: (
    LineOutcome,
    LabTimes,
))
    ensures
        r.0 == outcome_of(rec@.fields, start, end),
        r.1 == times_of(rec@.fields, start, end),
{
    match (&rec.fields, start, end) {
        (None, _, _) => (LineOutcome::Malformed, LabTimes { start: None, end: None }),
        (Some(_), None, _) => (LineOutcome::BadStart, LabTimes { start: None, end: None }),
        (Some(_), Some(s), None) => (LineOutcome::BadEnd, LabTimes { start: Some(s), end: None }),
        (Some(_), Some(s), Some(e)) => (
            LineOutcome::Segment,
            LabTimes { start: Some(s), end: Some(e) },
        ),
    }
}

// ---------------------------------------------------------------------------
// Skipped lines
// ---------------------------------------------------------------------------

/// The times kept of a record whose time fields are read by `read`.
pub open spec fn read_times(r: LabRecordView, read: spec_fn(Seq<char>) -> Option<TimeKey>) -> LabTimes {
    match r.fields {
        Some((s, e, _)) => times_of(r.fields, read(s), read(e)),
        None => times_of(r.fields, None, None),
    }
}

/// The segments of the `.lab` text `text`, its time fields read by `read`.
pub open spec fn timeline_of(text: Seq<char>, read: spec_fn(Seq<char>) -> Option<TimeKey>) -> Seq<
    (TimeKey, TimeKey, Seq<char>),
> {
    let recs = lab_records_of(text);
    segments_of(recs, recs.map_values(|r: LabRecordView| read_times(r, read)))
}

/// A line that gives no segment: blank, with fewer than three fields, or
/// with a start or end time that `read` cannot read.
pub open spec fn skipped_line(l: Seq<char>, read: spec_fn(Seq<char>) -> Option<TimeKey>) -> bool {
    let ws = words(trim(l));
    ||| trim(l).len() == 0
    ||| ws.len() < 3
    ||| read(ws[0]) is None
    ||| read(ws[1]) is None
}

/// The segment that line `l` gives, if any.
pub open spec fn line_segment(l: Seq<char>, read: spec_fn(Seq<char>) -> Option<TimeKey>) -> Seq<
    (TimeKey, TimeKey, Seq<char>),
> {
    let ws = words(trim(l));
    if skipped_line(l, read) {
        seq![]
    } else {
        seq![(read(ws[0])->0, read(ws[1])->0, join(ws.skip(2), " "@))]
    }
}

/// The segments that the lines `ls` give, in order.
pub open spec fn line_segments(ls: Seq<Seq<char>>, read: spec_fn(Seq<char>) -> Option<TimeKey>) -> Seq<
    (TimeKey, TimeKey, Seq<char>),
>
    decreases ls.len(),
{
    if ls.len() == 0 {
        seq![]
    } else {
        line_segment(ls[0], read) + line_segments(ls.drop_first(), read)
    }
}

/// The segments of records put one after the other are those of each, one
/// after the other.
pub proof fn lemma_segments_of_concat(
    a: Seq<LabRecordView>,
    ta: Seq<LabTimes>,
    b: Seq<LabRecordView>,
    tb: Seq<LabTimes>,
)
    requires
        a.len() == ta.len(),
        b.len() == tb.len(),
    ensures
        segments_of(a + b, ta + tb) == segments_of(a, ta) + segments_of(b, tb),
    decreases b.len(),
{
    if b.len() == 0 {
        assert(a + b == a);
        assert(ta + tb == ta);
        assert(segments_of(b, tb) == Seq::<(TimeKey, TimeKey, Seq<char>)>::empty());
        assert(segments_of(a, ta) + segments_of(b, tb) == segments_of(a, ta));
    } else {
        lemma_segments_of_concat(a, ta, b.drop_last(), tb.drop_last());
        assert((a + b).drop_last() == a + b.drop_last());
        assert((ta + tb).drop_last() == ta + tb.drop_last());
        assert((a + b).last() == b.last());
        assert((ta + tb).last() == tb.last());
        let rest = segments_of(b.drop_last(), tb.drop_last());
        match (b.last().fields, tb.last().start, tb.last().end) {
            (Some((_, _, chord)), Some(start), Some(end)) => {
                assert(segments_of(a, ta) + rest.push((start, end, chord)) == (segments_of(a, ta)
                    + rest).push((start, end, chord)));
            },
            _ => {},
        }
    }
}

/// The segments of the records of lines `ls` are those that the lines give,
/// whatever number the first line has.
pub proof fn lemma_records_segments(
    ls: Seq<Seq<char>>,
    first: nat,
    read: spec_fn(Seq<char>) -> Option<TimeKey>,
)
    ensures
        ({
            let recs = records_from(ls, first);
            segments_of(recs, recs.map_values(|r: LabRecordView| read_times(r, read)))
        }) == line_segments(ls, read),
    decreases ls.len(),
{
    let f = |r: LabRecordView| read_times(r, read);
    let recs = records_from(ls, first);
    if ls.len() == 0 {
        assert(recs.map_values(f) =~= Seq::<LabTimes>::empty());
    } else {
        let rest = records_from(ls.drop_first(), first + 1);
        lemma_records_segments(ls.drop_first(), first + 1, read);
        if trim(ls[0]).len() == 0 {
            assert(line_segment(ls[0], read) =~= Seq::<(TimeKey, TimeKey, Seq<char>)>::empty());
            assert(line_segments(ls, read) =~= line_segments(ls.drop_first(), read));
        } else {
            let r = record_of(first, trim(ls[0]));
            let one = seq![r];
            assert(recs == one + rest);
            assert(recs.map_values(f) =~= one.map_values(f) + rest.map_values(f));
            lemma_segments_of_concat(one, one.map_values(f), rest, rest.map_values(f));
            let t = one.map_values(f);
            assert(one.drop_last() =~= Seq::<LabRecordView>::empty());
            assert(t.drop_last() =~= Seq::<LabTimes>::empty());
            assert(segments_of(one.drop_last(), t.drop_last()) =~= Seq::<
                (TimeKey, TimeKey, Seq<char>),
            >::empty());
            assert(one.last() == r);
            assert(t.last() == read_times(r, read));
            let ws = words(trim(ls[0]));
            if skipped_line(ls[0], read) {
                assert(segments_of(one, t) =~= Seq::<(TimeKey, TimeKey, Seq<char>)>::empty());
            } else {
                assert(r.fields == Some((ws[0], ws[1], join(ws.skip(2), " "@))));
                assert(segments_of(one, t) =~= line_segment(ls[0], read));
            }
        }
    }
}

/// Removing a line that gives no segment leaves the segments of the others.
pub proof fn lemma_line_segments_remove(
    ls: Seq<Seq<char>>,
    k: int,
    read: spec_fn(Seq<char>) -> Option<TimeKey>,
)
    requires
        0 <= k < ls.len(),
        skipped_line(ls[k], read),
    ensures
        line_segments(ls.remove(k), read) == line_segments(ls, read),
    decreases k,
{
    if k == 0 {
        assert(ls.remove(0) == ls.drop_first());
        assert(line_segment(ls[0], read) =~= Seq::<(TimeKey, TimeKey, Seq<char>)>::empty());
        assert(line_segments(ls, read) =~= line_segments(ls.drop_first(), read));
    } else {
        lemma_line_segments_remove(ls.drop_first(), k - 1, read);
        assert(ls.remove(k).drop_first() == ls.drop_first().remove(k - 1));
        assert(ls.remove(k)[0] == ls[0]);
    }
}

/// The length of a timeline depends on its segments' times alone.
pub proof fn lemma_latest_end_of_views(c1: Seq<ChordSegment>, c2: Seq<ChordSegment>)
    requires
        c1.map_values(|c: ChordSegment| segment_view(c)) == c2.map_values(
            |c: ChordSegment| segment_view(c),
        ),
    ensures
        latest_end(c1) == latest_end(c2),
    decreases c1.len(),
{
    let v = |c: ChordSegment| segment_view(c);
    assert(c1.len() == c1.map_values(v).len());
    assert(c2.len() == c2.map_values(v).len());
    if c1.len() > 0 {
        assert(c1.drop_last().map_values(v) =~= c1.map_values(v).drop_last());
        assert(c2.drop_last().map_values(v) =~= c2.map_values(v).drop_last());
        lemma_latest_end_of_views(c1.drop_last(), c2.drop_last());
        assert(c1.map_values(v)[c1.len() - 1] == c2.map_values(v)[c1.len() - 1]);
    }
}

/// Deleting from a `.lab` text a line that gives no segment (a blank line, a
/// line with fewer than three fields, or one whose start or end time cannot
/// be read) leaves its timeline unchanged: the same segments in the same
/// order, and so the same length.
pub proof fn law_skipped_line_removable(
    text1: Seq<char>,
    text2: Seq<char>,
    k: int,
    read: spec_fn(Seq<char>) -> Option<TimeKey>,
)
    requires
        0 <= k < lines(text1).len(),
        lines(text2) == lines(text1).remove(k),
        skipped_line(lines(text1)[k], read),
    ensures
        timeline_of(text2, read) == timeline_of(text1, read),
        forall|c1: Seq<ChordSegment>, c2: Seq<ChordSegment>|
            c1.map_values(|c: ChordSegment| segment_view(c)) == timeline_of(text1, read)
                && c2.map_values(|c: ChordSegment| segment_view(c)) == timeline_of(text2, read)
                ==> latest_end(c1) == latest_end(c2),
{
    lemma_records_segments(lines(text1), 1, read);
    lemma_records_segments(lines(text2), 1, read);
    lemma_line_segments_remove(lines(text1), k, read);
    assert forall|c1: Seq<ChordSegment>, c2: Seq<ChordSegment>|
        c1.map_values(|c: ChordSegment| segment_view(c)) == timeline_of(text1, read)
            && c2.map_values(|c: ChordSegment| segment_view(c)) == timeline_of(text2, read)
        implies latest_end(c1) == latest_end(c2) by {
        lemma_latest_end_of_views(c1, c2);
    }
}

} // verus!
