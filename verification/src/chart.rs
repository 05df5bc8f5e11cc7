//! The chart of a whole file: the header line, the sections, and the
//! records of the sections that a chart is made of.

use crate::decimal::{decode_decimal, spec_decimal};
use crate::error::{
    failure,
    miscount,
    placed,
    plain,
    DecodeError,
    ErrorKind,
    Failure,
    Section,
};
use crate::hit_object::{spec_hit_object, HitObject, HitObjectView, Time};
use crate::rational::Rational;
use crate::text::{
    as_written,
    contains,
    cut,
    cut_at,
    decode_all,
    find_text,
    first_line,
    first_occurrence,
    i64_literal,
    is_blank,
    is_text,
    leading_space,
    lemma_first_line,
    lemma_first_line_bounds,
    lemma_first_occurrence,
    parse_i64,
    split,
    split_fields,
    strip_line_ending,
    trim,
    trim_bytes,
    views,
    COLON,
    NEWLINE,
};
use crate::timing_point::{spec_timing_point, TimingPoint};
use vstd::prelude::*;
use vstd::slice::slice_subrange;
use vstd::string::StringSliceAdditionalSpecFns;

verus! {

/// The playable content of a file: three scaling constants, the timing
/// points and the hit objects, both in file order. The slider multiplier
/// and the slider tick rate are absent where the file sets none.
#[derive(Debug, Clone, PartialEq, Eq)]
pub struct Chart {
    pub stack_leniency: Rational,
    pub slider_multiplier: Option<Rational>,
    pub slider_tick_rate: Option<Rational>,
    pub timing_points: Vec<TimingPoint>,
    pub hit_objects: Vec<HitObject>,
}

/// A decoded file: the format version that its header reports, the
/// difficulty settings that it writes, and its chart.
#[derive(Debug, Clone, PartialEq, Eq)]
pub struct Beatmap {
    pub file_format: i64,
    pub hpdrain_rate: Option<Rational>,
    pub circle_size: Option<Rational>,
    pub overall_difficulty: Option<Rational>,
    pub approach_rate: Option<Rational>,
    pub chart: Chart,
}

/// The mathematical content of a [`Chart`].
pub struct ChartView {
    pub stack_leniency: Rational,
    pub slider_multiplier: Option<Rational>,
    pub slider_tick_rate: Option<Rational>,
    pub timing_points: Seq<TimingPoint>,
    pub hit_objects: Seq<HitObjectView>,
}

/// The mathematical content of a [`Beatmap`].
pub struct BeatmapView {
    pub file_format: i64,
    pub hpdrain_rate: Option<Rational>,
    pub circle_size: Option<Rational>,
    pub overall_difficulty: Option<Rational>,
    pub approach_rate: Option<Rational>,
    pub chart: ChartView,
}

/// The views of a list of hit objects.
pub open spec fn hit_object_views(objects: Seq<HitObject>) -> Seq<HitObjectView> {
    Seq::new(objects.len(), |i: int| objects[i]@)
}

impl View for Chart {
    type V = ChartView;

    open spec fn view(&self) -> ChartView {
        ChartView {
            stack_leniency: self.stack_leniency,
            slider_multiplier: self.slider_multiplier,
            slider_tick_rate: self.slider_tick_rate,
            timing_points: self.timing_points@,
            hit_objects: hit_object_views(self.hit_objects@),
        }
    }
}

impl View for Beatmap {
    type V = BeatmapView;

    open spec fn view(&self) -> BeatmapView {
        BeatmapView {
            file_format: self.file_format,
            hpdrain_rate: self.hpdrain_rate,
            circle_size: self.circle_size,
            overall_difficulty: self.overall_difficulty,
            approach_rate: self.approach_rate,
            chart: self.chart@,
        }
    }
}

/// The header that opens a section; the preamble has none.
pub open spec fn header_text(section: Section) -> Seq<u8> {
    match section {
        Section::Preamble => Seq::<u8>::empty(),
        Section::General => "[General]".spec_bytes(),
        Section::Editor => "[Editor]".spec_bytes(),
        Section::Metadata => "[Metadata]".spec_bytes(),
        Section::Difficulty => "[Difficulty]".spec_bytes(),
        Section::Events => "[Events]".spec_bytes(),
        Section::TimingPoints => "[TimingPoints]".spec_bytes(),
        Section::Colours => "[Colours]".spec_bytes(),
        Section::HitObjects => "[HitObjects]".spec_bytes(),
    }
}

/// The test for a line that holds the header of the given section.
pub open spec fn opens(section: Section) -> spec_fn(Seq<u8>) -> bool {
    |line: Seq<u8>| contains(line, header_text(section))
}

/// The test for a line that holds more than white space.
pub open spec fn has_text() -> spec_fn(Seq<u8>) -> bool {
    |line: Seq<u8>| trim(line).len() > 0
}

/// The eight sections in the order in which a file holds them.
pub open spec fn canonical(rank: int) -> Section {
    if rank == 0 {
        Section::General
    } else if rank == 1 {
        Section::Editor
    } else if rank == 2 {
        Section::Metadata
    } else if rank == 3 {
        Section::Difficulty
    } else if rank == 4 {
        Section::Events
    } else if rank == 5 {
        Section::TimingPoints
    } else if rank == 6 {
        Section::Colours
    } else {
        Section::HitObjects
    }
}

/// The place of a section in the canonical order; the preamble, which has
/// no header, comes before them all.
pub open spec fn rank_of(section: Section) -> int {
    match section {
        Section::Preamble => -1,
        Section::General => 0,
        Section::Editor => 1,
        Section::Metadata => 2,
        Section::Difficulty => 3,
        Section::Events => 4,
        Section::TimingPoints => 5,
        Section::Colours => 6,
        Section::HitObjects => 7,
    }
}

/// The index of the line from which the header of the section of the given
/// rank is looked for: the line after the header of the nearest earlier
/// section that is there, or the first line.
pub open spec fn search_start(lines: Seq<Seq<u8>>, rank: int) -> int
    decreases rank, 0int,
{
    if rank <= 0 {
        0
    } else if header_line(lines, rank - 1) < lines.len() {
        header_line(lines, rank - 1) + 1
    } else {
        search_start(lines, rank - 1)
    }
}

/// The index of the line that holds the header of the section of the given
/// rank, or the number of lines where the section is absent. The headers
/// are looked for one after the other, in canonical order.
pub open spec fn header_line(lines: Seq<Seq<u8>>, rank: int) -> int
    decreases rank, 1int,
{
    if rank < 0 {
        lines.len() as int
    } else {
        search_start(lines, rank) + first_line(
            lines.skip(search_start(lines, rank)),
            opens(canonical(rank)),
        )
    }
}

/// The index of the line before which the section of the given rank ends:
/// the header line of the nearest later section that is there, or the
/// number of lines.
pub open spec fn section_end(lines: Seq<Seq<u8>>, rank: int) -> int
    decreases 7 - rank,
{
    if rank >= 7 {
        lines.len() as int
    } else if header_line(lines, rank + 1) < lines.len() {
        header_line(lines, rank + 1)
    } else {
        section_end(lines, rank + 1)
    }
}

/// The lines of a section, as the index of its first line and the index
/// after its last: it starts after the line that holds its header and ends
/// before the header of the next section that is there. `None` where the
/// section is absent.
pub open spec fn section_bounds(lines: Seq<Seq<u8>>, section: Section) -> Option<(int, int)> {
    let rank = rank_of(section);
    if header_line(lines, rank) >= lines.len() {
        None
    } else {
        Some((header_line(lines, rank) + 1, section_end(lines, rank)))
    }
}

/// Where a header is looked for, and where it is found, lies within the
/// lines or is their number.
pub proof fn lemma_header_line_bounds(lines: Seq<Seq<u8>>, rank: int)
    ensures
        0 <= search_start(lines, rank) <= lines.len(),
        search_start(lines, rank) <= header_line(lines, rank) <= lines.len(),
    decreases rank,
{
    if rank >= 0 {
        if rank > 0 {
            lemma_header_line_bounds(lines, rank - 1);
        }
        lemma_first_line_bounds(
            lines.skip(search_start(lines, rank)),
            opens(canonical(rank)),
        );
    }
}

/// A later section is looked for after the header of an earlier one.
pub proof fn lemma_sections_in_order(lines: Seq<Seq<u8>>, earlier: int, later: int)
    requires
        0 <= earlier < later,
        header_line(lines, earlier) < lines.len(),
    ensures
        header_line(lines, earlier) < search_start(lines, later) <= header_line(lines, later),
    decreases later,
{
    lemma_header_line_bounds(lines, later);
    if later > earlier + 1 {
        lemma_sections_in_order(lines, earlier, later - 1);
    }
}

/// A section ends after its header.
pub proof fn lemma_section_end_bounds(lines: Seq<Seq<u8>>, present: int, rank: int)
    requires
        0 <= present <= rank,
        header_line(lines, present) < lines.len(),
    ensures
        header_line(lines, present) < section_end(lines, rank) <= lines.len(),
    decreases 7 - rank,
{
    if rank < 7 {
        lemma_header_line_bounds(lines, rank + 1);
        lemma_sections_in_order(lines, present, rank + 1);
        if header_line(lines, rank + 1) >= lines.len() {
            lemma_section_end_bounds(lines, present, rank + 1);
        }
    }
}

/// The text that stands before a format version in the header line.
pub open spec fn version_mark() -> Seq<u8> {
    "file format v".spec_bytes()
}

/// The format version that the file reports: its first line with any text
/// must hold the version mark, and an integer must follow the mark up to the
/// end of the trimmed line.
pub open spec fn spec_version(lines: Seq<Seq<u8>>) -> Result<i64, Failure> {
    let first = first_line(lines, has_text());
    if first >= lines.len() {
        Err(failure(ErrorKind::StructuralError, Seq::<u8>::empty()))
    } else {
        let line = trim(lines[first]);
        let bad = placed(
            failure(ErrorKind::StructuralError, line),
            Section::Preamble,
            (first + 1) as usize,
        );
        if !contains(line, version_mark()) {
            Err(bad)
        } else {
            match i64_literal(
                line.skip(first_occurrence(line, version_mark()) + version_mark().len()),
            ) {
                None => Err(bad),
                Some(v) => Ok(v),
            }
        }
    }
}

/// What one line of a section gives: nothing where it is blank, else what
/// `one` reads from the line as it is written, a failure being placed at
/// the line's number. Only the carriage return of the line ending is taken
/// from the line; white space around a record is left for `one` to refuse.
#[verifier::opaque]
pub open spec fn spec_record<T>(
    line: Seq<u8>,
    section: Section,
    number: usize,
    one: spec_fn(Seq<u8>) -> Result<T, Failure>,
) -> Result<Option<T>, Failure> {
    let text = as_written(line);
    if is_blank(text) {
        Ok(None)
    } else {
        match one(text) {
            Err(f) => Err(placed(f, section, number)),
            Ok(v) => Ok(Some(v)),
        }
    }
}

/// A line that is not blank gives what its record decoder gives for the
/// line as written: the record where it decodes, and its failure, placed at
/// the line, where it does not. No such line is passed over.
pub proof fn lemma_record_is_read_as_written<T>(
    line: Seq<u8>,
    section: Section,
    number: usize,
    one: spec_fn(Seq<u8>) -> Result<T, Failure>,
)
    requires
        !is_blank(as_written(line)),
    ensures
        spec_record(line, section, number, one) == match one(as_written(line)) {
            Err(f) => Err::<Option<T>, Failure>(placed(f, section, number)),
            Ok(v) => Ok::<Option<T>, Failure>(Some(v)),
        },
{
    reveal(spec_record);
}

/// The records of the lines from index `lo` up to index `hi`, each line
/// read by `one` as it is written; blank lines are passed over. The first line
/// that fails decides the failure, which is placed at that line.
pub open spec fn spec_records<T>(
    lines: Seq<Seq<u8>>,
    lo: int,
    hi: int,
    section: Section,
    one: spec_fn(Seq<u8>) -> Result<T, Failure>,
) -> Result<Seq<T>, Failure>
    decreases hi - lo,
{
    if hi <= lo {
        Ok(Seq::<T>::empty())
    } else {
        match spec_records(lines, lo, hi - 1, section, one) {
            Err(f) => Err(f),
            Ok(before) => match spec_record(lines[hi - 1], section, hi as usize, one) {
                Err(f) => Err(f),
                Ok(None) => Ok(before),
                Ok(Some(v)) => Ok(before.push(v)),
            },
        }
    }
}

/// The record lines from index `lo` up to index `hi`: every line that is
/// not blank, as it is written, in file order.
pub open spec fn written_records(lines: Seq<Seq<u8>>, lo: int, hi: int) -> Seq<Seq<u8>>
    decreases hi - lo,
{
    if hi <= lo {
        Seq::<Seq<u8>>::empty()
    } else {
        let before = written_records(lines, lo, hi - 1);
        let text = as_written(lines[hi - 1]);
        if is_blank(text) {
            before
        } else {
            before.push(text)
        }
    }
}

/// The records of a section are what the record decoder gives for its
/// lines as written: one value for each line that is not blank, in file
/// order, none left out and none added. Where a line fails, the result is
/// the failure of the first such line, placed in the section at a line of
/// the range.
pub proof fn lemma_records_are_the_lines<T>(
    lines: Seq<Seq<u8>>,
    lo: int,
    hi: int,
    section: Section,
    one: spec_fn(Seq<u8>) -> Result<T, Failure>,
)
    requires
        0 <= lo,
        hi <= usize::MAX,
    ensures
        match spec_records(lines, lo, hi, section, one) {
            Ok(values) => decode_all(written_records(lines, lo, hi), one) == Ok::<
                Seq<T>,
                Failure,
            >(values),
            Err(f) => decode_all(written_records(lines, lo, hi), one) matches Err(g) && exists|
                line: usize,
            |
                lo < line <= hi && f == #[trigger] placed(g, section, line),
        },
    decreases hi - lo,
{
    reveal(spec_record);
    if hi > lo {
        lemma_records_are_the_lines(lines, lo, hi - 1, section, one);
        let before = written_records(lines, lo, hi - 1);
        let text = as_written(lines[hi - 1]);
        if !is_blank(text) {
            assert(before.push(text).drop_last() =~= before);
            assert(before.push(text).last() == text);
        }
        match spec_records(lines, lo, hi - 1, section, one) {
            Err(f) => {
                let g = decode_all(before, one)->Err_0;
                let line = choose|line: usize|
                    lo < line <= hi - 1 && f == #[trigger] placed(g, section, line);
                assert(lo < line <= hi && f == placed(g, section, line));
            },
            Ok(values) => {
                if !is_blank(text) {
                    if let Err(g) = one(text) {
                        assert(lo < (hi as usize) <= hi && placed(g, section, hi as usize)
                            == placed(g, section, hi as usize));
                    }
                }
            },
        }
    }
}

/// The bracket that a section header starts with.
pub const BRACKET: u8 = 91;

/// Whether a trimmed line sets nothing: it is blank, or it starts with a
/// bracket as a section header does.
pub open spec fn sets_nothing(line: Seq<u8>) -> bool {
    line.len() == 0 || line[0] == BRACKET
}

/// What the lines from index `lo` up to index `hi` set the key to. A line
/// that is blank or starts with a bracket is passed over; every other line
/// must hold a colon, with the key before the first one and the value after
/// it, both trimmed. The last line with the given key decides; its value is
/// read as a decimal.
pub open spec fn spec_lookup(
    lines: Seq<Seq<u8>>,
    lo: int,
    hi: int,
    section: Section,
    key: Seq<u8>,
) -> Result<Option<Rational>, Failure>
    decreases hi - lo,
{
    if hi <= lo {
        Ok(None)
    } else {
        match spec_lookup(lines, lo, hi - 1, section, key) {
            Err(f) => Err(f),
            Ok(found) => {
                let line = trim(lines[hi - 1]);
                if sets_nothing(line) {
                    Ok(found)
                } else {
                    match cut(line, COLON) {
                        None => Err(placed(miscount(1, line), section, hi as usize)),
                        Some((name, value)) => if trim(name) == key {
                            match spec_decimal(trim(value)) {
                                Err(f) => Err(placed(f, section, hi as usize)),
                                Ok(v) => Ok(Some(v)),
                            }
                        } else {
                            Ok(found)
                        },
                    }
                }
            },
        }
    }
}

/// What a section sets the key to; nothing where the section is absent.
pub open spec fn spec_setting(lines: Seq<Seq<u8>>, section: Section, key: Seq<u8>) -> Result<
    Option<Rational>,
    Failure,
> {
    match section_bounds(lines, section) {
        None => Ok(None),
        Some((lo, hi)) => spec_lookup(lines, lo, hi, section, key),
    }
}

/// The records of a section that a chart cannot do without.
pub open spec fn spec_required_records<T>(
    lines: Seq<Seq<u8>>,
    section: Section,
    one: spec_fn(Seq<u8>) -> Result<T, Failure>,
) -> Result<Seq<T>, Failure> {
    match section_bounds(lines, section) {
        None => Err(failure(ErrorKind::StructuralError, header_text(section))),
        Some((lo, hi)) => spec_records(lines, lo, hi, section, one),
    }
}

/// How one timing-point record is read.
pub open spec fn timing_point_reader() -> spec_fn(Seq<u8>) -> Result<TimingPoint, Failure> {
    |line: Seq<u8>| spec_timing_point(line)
}

/// How one hit-object record is read.
pub open spec fn hit_object_reader() -> spec_fn(Seq<u8>) -> Result<HitObjectView, Failure> {
    |line: Seq<u8>| spec_hit_object(line)
}

/// A record line that starts with white space and is not blank fails in a
/// file as it fails alone: it is not trimmed into a record.
pub proof fn lemma_padded_line_is_refused(line: Seq<u8>, number: usize)
    requires
        !is_blank(as_written(line)),
        leading_space(as_written(line)) > 0,
    ensures
        spec_record(line, Section::TimingPoints, number, timing_point_reader()) is Err,
        spec_record(line, Section::HitObjects, number, hit_object_reader()) is Err,
{
    let text = as_written(line);
    lemma_record_is_read_as_written(line, Section::TimingPoints, number, timing_point_reader());
    lemma_record_is_read_as_written(line, Section::HitObjects, number, hit_object_reader());
    crate::timing_point::lemma_leading_space_is_refused(text);
    crate::hit_object::lemma_leading_space_is_refused(text);
}

/// The stack leniency of a file that sets none: seven tenths.
pub open spec fn default_stack_leniency() -> Rational {
    Rational::spec_new(7, 10)
}

/// The three scaling constants of a chart.
pub struct Scaling {
    pub stack_leniency: Rational,
    pub slider_multiplier: Option<Rational>,
    pub slider_tick_rate: Option<Rational>,
}

/// The difficulty settings that a file may write.
pub struct Rates {
    pub hpdrain_rate: Option<Rational>,
    pub circle_size: Option<Rational>,
    pub overall_difficulty: Option<Rational>,
    pub approach_rate: Option<Rational>,
}

/// The scaling constants that the lines set. The stack leniency has a
/// default; the slider multiplier and the slider tick rate are absent where
/// the file sets none.
pub open spec fn spec_scaling(lines: Seq<Seq<u8>>) -> Result<Scaling, Failure> {
    match spec_setting(lines, Section::General, "StackLeniency".spec_bytes()) {
        Err(f) => Err(f),
        Ok(leniency) => match spec_setting(
            lines,
            Section::Difficulty,
            "SliderMultiplier".spec_bytes(),
        ) {
            Err(f) => Err(f),
            Ok(slider_multiplier) => match spec_setting(
                lines,
                Section::Difficulty,
                "SliderTickRate".spec_bytes(),
            ) {
                Err(f) => Err(f),
                Ok(slider_tick_rate) => Ok(
                    Scaling {
                        stack_leniency: match leniency {
                            Some(v) => v,
                            None => default_stack_leniency(),
                        },
                        slider_multiplier,
                        slider_tick_rate,
                    },
                ),
            },
        },
    }
}

/// The difficulty settings that the lines write. A file that sets no
/// approach rate has that of its overall difficulty.
pub open spec fn spec_rates(lines: Seq<Seq<u8>>) -> Result<Rates, Failure> {
    match spec_setting(lines, Section::Difficulty, "HPDrainRate".spec_bytes()) {
        Err(f) => Err(f),
        Ok(hpdrain_rate) => match spec_setting(
            lines,
            Section::Difficulty,
            "CircleSize".spec_bytes(),
        ) {
            Err(f) => Err(f),
            Ok(circle_size) => match spec_setting(
                lines,
                Section::Difficulty,
                "OverallDifficulty".spec_bytes(),
            ) {
                Err(f) => Err(f),
                Ok(overall_difficulty) => match spec_setting(
                    lines,
                    Section::Difficulty,
                    "ApproachRate".spec_bytes(),
                ) {
                    Err(f) => Err(f),
                    Ok(written) => Ok(
                        Rates {
                            hpdrain_rate,
                            circle_size,
                            overall_difficulty,
                            approach_rate: if written is Some {
                                written
                            } else {
                                overall_difficulty
                            },
                        },
                    ),
                },
            },
        },
    }
}

/// The decoded file that `content` writes. The header line, the scaling
/// constants, the difficulty settings, the timing points and the hit
/// objects are read in this order, and the first failure is the result.
/// Nothing that fails is passed over.
pub open spec fn spec_beatmap(content: Seq<u8>) -> Result<BeatmapView, Failure> {
    let lines = split(content, NEWLINE);
    match spec_version(lines) {
        Err(f) => Err(f),
        Ok(file_format) => match spec_scaling(lines) {
            Err(f) => Err(f),
            Ok(scaling) => match spec_rates(lines) {
                Err(f) => Err(f),
                Ok(rates) => match spec_required_records(
                    lines,
                    Section::TimingPoints,
                    timing_point_reader(),
                ) {
                    Err(f) => Err(f),
                    Ok(timing_points) => match spec_required_records(
                        lines,
                        Section::HitObjects,
                        hit_object_reader(),
                    ) {
                        Err(f) => Err(f),
                        Ok(hit_objects) => Ok(
                            BeatmapView {
                                file_format,
                                hpdrain_rate: rates.hpdrain_rate,
                                circle_size: rates.circle_size,
                                overall_difficulty: rates.overall_difficulty,
                                approach_rate: rates.approach_rate,
                                chart: ChartView {
                                    stack_leniency: scaling.stack_leniency,
                                    slider_multiplier: scaling.slider_multiplier,
                                    slider_tick_rate: scaling.slider_tick_rate,
                                    timing_points,
                                    hit_objects,
                                },
                            },
                        ),
                    },
                },
            },
        },
    }
}

/// Once the records up to a line have failed, the records up to any later
/// line fail in the same way.
pub proof fn lemma_records_prefix<T>(
    lines: Seq<Seq<u8>>,
    lo: int,
    k: int,
    hi: int,
    section: Section,
    one: spec_fn(Seq<u8>) -> Result<T, Failure>,
)
    requires
        k <= hi,
        spec_records(lines, lo, k, section, one) is Err,
    ensures
        spec_records(lines, lo, hi, section, one) == spec_records(lines, lo, k, section, one),
    decreases hi - k,
{
    if k < hi {
        lemma_records_prefix(lines, lo, k, hi - 1, section, one);
    }
}

/// Once the lookup up to a line has failed, the lookup up to any later
/// line fails in the same way.
pub proof fn lemma_lookup_prefix(
    lines: Seq<Seq<u8>>,
    lo: int,
    k: int,
    hi: int,
    section: Section,
    key: Seq<u8>,
)
    requires
        k <= hi,
        spec_lookup(lines, lo, k, section, key) is Err,
    ensures
        spec_lookup(lines, lo, hi, section, key) == spec_lookup(lines, lo, k, section, key),
    decreases hi - k,
{
    if k < hi {
        lemma_lookup_prefix(lines, lo, k, hi - 1, section, key);
    }
}

/// The header of a section, as text.
pub fn header_of(section: Section) -> (text: &'static str)
    ensures
        text.spec_bytes() == header_text(section),
{
    match section {
        Section::Preamble => {
            proof {
                reveal_strlit("");
                assert("".is_ascii());
                vstd::string::is_ascii_spec_bytes("");
                assert("".spec_bytes() =~= Seq::<u8>::empty());
            }
            ""
        },
        Section::General => "[General]",
        Section::Editor => "[Editor]",
        Section::Metadata => "[Metadata]",
        Section::Difficulty => "[Difficulty]",
        Section::Events => "[Events]",
        Section::TimingPoints => "[TimingPoints]",
        Section::Colours => "[Colours]",
        Section::HitObjects => "[HitObjects]",
    }
}

/// Whether a line holds the given text.
pub fn holds(line: &[u8], text: &str) -> (r: bool)
    ensures
        r == contains(line@, text.spec_bytes()),
{
    let found = find_text(line, text.as_bytes());
    proof {
        if let Some(i) = found {
            assert(crate::text::occurs_at(line@, text.spec_bytes(), i as int));
        }
    }
    found.is_some()
}

/// The section at the given place of the canonical order.
pub fn section_at(rank: usize) -> (section: Section)
    requires
        rank < 8,
    ensures
        section == canonical(rank as int),
        rank_of(section) == rank,
{
    if rank == 0 {
        Section::General
    } else if rank == 1 {
        Section::Editor
    } else if rank == 2 {
        Section::Metadata
    } else if rank == 3 {
        Section::Difficulty
    } else if rank == 4 {
        Section::Events
    } else if rank == 5 {
        Section::TimingPoints
    } else if rank == 6 {
        Section::Colours
    } else {
        Section::HitObjects
    }
}

/// The place of a section in the canonical order; `None` for the preamble.
pub fn rank(section: Section) -> (r: Option<usize>)
    ensures
        match r {
            Some(k) => k < 8 && k == rank_of(section) && canonical(k as int) == section,
            None => section == Section::Preamble,
        },
{
    match section {
        Section::Preamble => None,
        Section::General => Some(0),
        Section::Editor => Some(1),
        Section::Metadata => Some(2),
        Section::Difficulty => Some(3),
        Section::Events => Some(4),
        Section::TimingPoints => Some(5),
        Section::Colours => Some(6),
        Section::HitObjects => Some(7),
    }
}

/// Looks for the header lines of the eight sections, in canonical order.
/// An absent section has the number of lines as its header line.
pub fn locate_sections(lines: &Vec<&[u8]>) -> (heads: Vec<usize>)
    ensures
        heads@.len() == 8,
        forall|k: int| 0 <= k < 8 ==> heads@[k] == header_line(views(lines@), k),
{
    let ghost all = views(lines@);
    let n = lines.len();
    let mut heads: Vec<usize> = Vec::new();
    let mut cursor: usize = 0;
    let mut k: usize = 0;
    while k < 8
        invariant
            k <= 8,
            n == lines@.len(),
            all == views(lines@),
            heads@.len() == k,
            cursor <= n,
            cursor == search_start(all, k as int),
            forall|j: int| 0 <= j < k ==> heads@[j] == header_line(all, j),
        decreases 8 - k,
    {
        let section = section_at(k);
        let header = header_of(section);
        let ghost rest = all.skip(cursor as int);
        let mut h: usize = cursor;
        while h < n && !holds(lines[h], header)
            invariant
                cursor <= h <= n,
                n == lines@.len(),
                all == views(lines@),
                rest == all.skip(cursor as int),
                header.spec_bytes() == header_text(section),
                forall|j: int| 0 <= j < h - cursor ==> !opens(section)(#[trigger] rest[j]),
            decreases n - h,
        {
            assert(rest[h - cursor] == lines@[h as int]@);
            h = h + 1;
        }
        proof {
            if h < n {
                assert(rest[h - cursor] == lines@[h as int]@);
            }
            lemma_first_line(rest, opens(section), h - cursor);
            assert(h == header_line(all, k as int));
        }
        heads.push(h);
        if h < n {
            cursor = h + 1;
        }
        k = k + 1;
    }
    heads
}

/// Looks for the lines of a section.
pub fn find_section(lines: &Vec<&[u8]>, section: Section) -> (r: Option<(usize, usize)>)
    ensures
        match r {
            Some((lo, hi)) => section_bounds(views(lines@), section) == Some((lo as int, hi as int))
                && lo <= hi <= lines@.len(),
            None => section_bounds(views(lines@), section) is None,
        },
{
    let ghost all = views(lines@);
    let n = lines.len();
    let place = match rank(section) {
        None => {
            return None;
        },
        Some(k) => k,
    };
    let heads = locate_sections(lines);
    let head = heads[place];
    if head >= n {
        return None;
    }
    let mut next: usize = place + 1;
    while next < 8 && heads[next] >= n
        invariant
            place < next <= 8,
            n == lines@.len(),
            all == views(lines@),
            heads@.len() == 8,
            forall|k: int| 0 <= k < 8 ==> heads@[k] == header_line(all, k),
            section_end(all, place as int) == section_end(all, next - 1),
        decreases 8 - next,
    {
        next = next + 1;
    }
    let end = if next < 8 {
        heads[next]
    } else {
        n
    };
    proof {
        lemma_section_end_bounds(all, place as int, place as int);
    }
    Some((head + 1, end))
}

/// Reads the format version from the header line.
pub fn decode_version(lines: &Vec<&[u8]>) -> (r: Result<i64, DecodeError>)
    ensures
        plain(r) == spec_version(views(lines@)),
{
    let ghost all = views(lines@);
    let n = lines.len();
    let mut first: usize = 0;
    while first < n && trim_bytes(lines[first]).len() == 0
        invariant
            first <= n,
            n == lines@.len(),
            all == views(lines@),
            forall|j: int| 0 <= j < first ==> !has_text()(#[trigger] all[j]),
        decreases n - first,
    {
        assert(all[first as int] == lines@[first as int]@);
        first = first + 1;
    }
    proof {
        if first < n {
            assert(all[first as int] == lines@[first as int]@);
        }
        lemma_first_line(all, has_text(), first as int);
    }
    if first >= n {
        let nothing = header_of(Section::Preamble).as_bytes();
        return Err(DecodeError::new(ErrorKind::StructuralError, nothing));
    }
    let line = trim_bytes(lines[first]);
    let mark = "file format v".as_bytes();
    let at = match find_text(line, mark) {
        None => {
            return Err(
                DecodeError::new(ErrorKind::StructuralError, line).at(Section::Preamble, first + 1),
            );
        },
        Some(i) => i,
    };
    proof {
        lemma_first_occurrence(line@, mark@, at as int);
    }
    let digits = slice_subrange(line, at + mark.len(), line.len());
    assert(digits@ =~= line@.skip(at + mark@.len()));
    match parse_i64(digits) {
        None => Err(
            DecodeError::new(ErrorKind::StructuralError, line).at(Section::Preamble, first + 1),
        ),
        Some(v) => Ok(v),
    }
}

/// Looks a key up in the lines from index `lo` up to index `hi`.
pub fn lookup(lines: &Vec<&[u8]>, lo: usize, hi: usize, section: Section, key: &str) -> (r: Result<
    Option<Rational>,
    DecodeError,
>)
    requires
        lo <= hi <= lines@.len(),
    ensures
        plain(r) == spec_lookup(views(lines@), lo as int, hi as int, section, key.spec_bytes()),
        r matches Ok(Some(v)) ==> v.wf(),
{
    let ghost all = views(lines@);
    let mut found: Option<Rational> = None;
    let mut i: usize = lo;
    while i < hi
        invariant
            lo <= i <= hi <= lines@.len(),
            all == views(lines@),
            spec_lookup(all, lo as int, i as int, section, key.spec_bytes()) == Ok::<
                Option<Rational>,
                Failure,
            >(found),
            found matches Some(v) ==> v.wf(),
        decreases hi - i,
    {
        assert(all[i as int] == lines@[i as int]@);
        let line = trim_bytes(lines[i]);
        if line.len() > 0 && line[0] != BRACKET {
            match cut_at(line, COLON) {
                None => {
                    proof {
                        lemma_lookup_prefix(
                            all,
                            lo as int,
                            i + 1,
                            hi as int,
                            section,
                            key.spec_bytes(),
                        );
                    }
                    return Err(DecodeError::miscount(1, line).at(section, i + 1));
                },
                Some((name, value)) => {
                    if is_text(trim_bytes(name), key) {
                        match decode_decimal(trim_bytes(value)) {
                            Err(e) => {
                                proof {
                                    lemma_lookup_prefix(
                                        all,
                                        lo as int,
                                        i + 1,
                                        hi as int,
                                        section,
                                        key.spec_bytes(),
                                    );
                                }
                                return Err(e.at(section, i + 1));
                            },
                            Ok(v) => {
                                found = Some(v);
                            },
                        }
                    }
                },
            }
        }
        i = i + 1;
    }
    Ok(found)
}

/// Looks a key up in a section.
pub fn setting(lines: &Vec<&[u8]>, section: Section, key: &str) -> (r: Result<
    Option<Rational>,
    DecodeError,
>)
    ensures
        plain(r) == spec_setting(views(lines@), section, key.spec_bytes()),
        r matches Ok(Some(v)) ==> v.wf(),
{
    match find_section(lines, section) {
        None => Ok(None),
        Some((lo, hi)) => lookup(lines, lo, hi, section, key),
    }
}

/// Reads one line of the timing points.
fn read_timing_point(line: &[u8], number: usize) -> (r: Result<Option<TimingPoint>, DecodeError>)
    ensures
        plain(r) == spec_record(line@, Section::TimingPoints, number, timing_point_reader()),
        r matches Ok(Some(point)) ==> point.beat_length.wf(),
{
    reveal(spec_record);
    let text = strip_line_ending(line);
    if trim_bytes(text).len() == 0 {
        return Ok(None);
    }
    match TimingPoint::decode(text) {
        Err(e) => Err(e.at(Section::TimingPoints, number)),
        Ok(point) => Ok(Some(point)),
    }
}

/// Reads one line of the hit objects.
fn read_hit_object(line: &[u8], number: usize) -> (r: Result<Option<HitObject>, DecodeError>)
    ensures
        match r {
            Ok(Some(object)) => spec_record(
                line@,
                Section::HitObjects,
                number,
                hit_object_reader(),
            ) == Ok::<Option<HitObjectView>, Failure>(Some(object@)),
            Ok(None) => spec_record(line@, Section::HitObjects, number, hit_object_reader())
                == Ok::<Option<HitObjectView>, Failure>(None),
            Err(e) => spec_record(line@, Section::HitObjects, number, hit_object_reader())
                == Err::<Option<HitObjectView>, Failure>(e@),
        },
{
    reveal(spec_record);
    let text = strip_line_ending(line);
    if trim_bytes(text).len() == 0 {
        return Ok(None);
    }
    match HitObject::decode(text) {
        Err(e) => Err(e.at(Section::HitObjects, number)),
        Ok(object) => Ok(Some(object)),
    }
}

/// Reads the timing points of the lines from index `lo` up to index `hi`.
pub fn decode_timing_points(lines: &Vec<&[u8]>, lo: usize, hi: usize) -> (r: Result<
    Vec<TimingPoint>,
    DecodeError,
>)
    requires
        lo <= hi <= lines@.len(),
    ensures
        crate::error::viewed(r) == spec_records(
            views(lines@),
            lo as int,
            hi as int,
            Section::TimingPoints,
            timing_point_reader(),
        ),
        r matches Ok(points) ==> forall|k: int|
            0 <= k < points@.len() ==> (#[trigger] points@[k]).beat_length.wf(),
{
    let ghost all = views(lines@);
    let mut points: Vec<TimingPoint> = Vec::new();
    let mut i: usize = lo;
    while i < hi
        invariant
            lo <= i <= hi <= lines@.len(),
            all == views(lines@),
            spec_records(all, lo as int, i as int, Section::TimingPoints, timing_point_reader())
                == Ok::<Seq<TimingPoint>, Failure>(points@),
            forall|k: int| 0 <= k < points@.len() ==> (#[trigger] points@[k]).beat_length.wf(),
        decreases hi - i,
    {
        assert(all[i as int] == lines@[i as int]@);
        match read_timing_point(lines[i], i + 1) {
            Err(e) => {
                proof {
                    lemma_records_prefix(
                        all,
                        lo as int,
                        i + 1,
                        hi as int,
                        Section::TimingPoints,
                        timing_point_reader(),
                    );
                }
                return Err(e);
            },
            Ok(None) => {},
            Ok(Some(point)) => {
                points.push(point);
            },
        }
        i = i + 1;
    }
    Ok(points)
}

/// Reads the hit objects of the lines from index `lo` up to index `hi`.
pub fn decode_hit_objects(lines: &Vec<&[u8]>, lo: usize, hi: usize) -> (r: Result<
    Vec<HitObject>,
    DecodeError,
>)
    requires
        lo <= hi <= lines@.len(),
    ensures
        match r {
            Ok(objects) => spec_records(
                views(lines@),
                lo as int,
                hi as int,
                Section::HitObjects,
                hit_object_reader(),
            ) == Ok::<Seq<HitObjectView>, Failure>(hit_object_views(objects@)),
            Err(e) => spec_records(
                views(lines@),
                lo as int,
                hi as int,
                Section::HitObjects,
                hit_object_reader(),
            ) == Err::<Seq<HitObjectView>, Failure>(e@),
        },
{
    let ghost all = views(lines@);
    let mut objects: Vec<HitObject> = Vec::new();
    let mut i: usize = lo;
    assert(hit_object_views(objects@) =~= Seq::<HitObjectView>::empty());
    while i < hi
        invariant
            lo <= i <= hi <= lines@.len(),
            all == views(lines@),
            spec_records(all, lo as int, i as int, Section::HitObjects, hit_object_reader())
                == Ok::<Seq<HitObjectView>, Failure>(hit_object_views(objects@)),
        decreases hi - i,
    {
        assert(all[i as int] == lines@[i as int]@);
        match read_hit_object(lines[i], i + 1) {
            Err(e) => {
                proof {
                    lemma_records_prefix(
                        all,
                        lo as int,
                        i + 1,
                        hi as int,
                        Section::HitObjects,
                        hit_object_reader(),
                    );
                }
                return Err(e);
            },
            Ok(None) => {},
            Ok(Some(object)) => {
                proof {
                    assert(hit_object_views(objects@.push(object)) =~= hit_object_views(
                        objects@,
                    ).push(object@));
                }
                objects.push(object);
            },
        }
        i = i + 1;
    }
    Ok(objects)
}

/// The time of a hit object.
pub open spec fn object_time(object: HitObjectView) -> i64 {
    match object {
        HitObjectView::Circle(c) => c.common.time,
        HitObjectView::Slider(s) => s.common.time,
        HitObjectView::Spinner(s) => s.common.time,
    }
}

/// Whether no hit object comes before one that is written before it.
pub open spec fn time_ordered(objects: Seq<HitObjectView>) -> bool {
    forall|i: int, j: int|
        0 <= i <= j < objects.len() ==> object_time(#[trigger] objects[i]) <= object_time(
            #[trigger] objects[j],
        )
}

impl Chart {
    /// Whether the times of the hit objects never decrease in file order.
    /// Decoding does not ask for it: a chart out of order is decoded as it
    /// is written.
    pub fn is_time_ordered(&self) -> (r: bool)
        ensures
            r == time_ordered(self@.hit_objects),
    {
        let ghost objects = self@.hit_objects;
        let n = self.hit_objects.len();
        if n == 0 {
            return true;
        }
        let mut i: usize = 1;
        while i < n
            invariant
                1 <= i <= n,
                n == self.hit_objects@.len(),
                objects == self@.hit_objects,
                forall|a: int, b: int|
                    0 <= a <= b < i ==> object_time(#[trigger] objects[a]) <= object_time(
                        #[trigger] objects[b],
                    ),
            decreases n - i,
        {
            let earlier = self.hit_objects[i - 1].time();
            let later = self.hit_objects[i].time();
            assert(objects[i - 1] == self.hit_objects@[i - 1]@);
            assert(objects[i as int] == self.hit_objects@[i as int]@);
            if earlier > later {
                return false;
            }
            assert forall|a: int, b: int| 0 <= a <= b < i + 1 implies object_time(
                #[trigger] objects[a],
            ) <= object_time(#[trigger] objects[b]) by {
                if b == i && a < i {
                    assert(object_time(objects[a]) <= object_time(objects[i - 1]));
                }
            }
            i = i + 1;
        }
        true
    }

    /// Whether the rationals of the chart are in lowest terms.
    pub open spec fn wf(&self) -> bool {
        &&& self.stack_leniency.wf()
        &&& self.slider_multiplier matches Some(v) ==> v.wf()
        &&& self.slider_tick_rate matches Some(v) ==> v.wf()
        &&& forall|k: int|
            0 <= k < self.timing_points@.len() ==> (
            #[trigger] self.timing_points@[k]).beat_length.wf()
    }
}

impl Beatmap {
    /// Whether every rational of the file is in lowest terms.
    pub open spec fn wf(&self) -> bool {
        &&& self.chart.wf()
        &&& self.hpdrain_rate matches Some(v) ==> v.wf()
        &&& self.circle_size matches Some(v) ==> v.wf()
        &&& self.overall_difficulty matches Some(v) ==> v.wf()
        &&& self.approach_rate matches Some(v) ==> v.wf()
    }

    /// Decodes the content of a chart file.
    ///
    /// The first line with any text must report the format version, and
    /// the sections `[TimingPoints]` and `[HitObjects]` must be there.
    /// Nothing else is asked of a file: a setting that it does not write is
    /// absent, but for the stack leniency, which is then seven tenths. Every
    /// record line that is not blank is decoded as it is written, without
    /// its line ending: white space around a record is not trimmed away.
    /// The first record that fails ends the decoding, and the failure names
    /// its section and line.
    pub fn parse(content: &[u8]) -> (r: Result<Beatmap, DecodeError>)
        ensures
            crate::error::viewed(r) == spec_beatmap(content@),
            r matches Ok(map) ==> map.wf(),
    {
        let lines = split_fields(content, NEWLINE);
        let file_format = match decode_version(&lines) {
            Err(e) => {
                return Err(e);
            },
            Ok(v) => v,
        };
        let leniency = match setting(&lines, Section::General, "StackLeniency") {
            Err(e) => {
                return Err(e);
            },
            Ok(v) => v,
        };
        let slider_multiplier = match setting(&lines, Section::Difficulty, "SliderMultiplier") {
            Err(e) => {
                return Err(e);
            },
            Ok(v) => v,
        };
        let slider_tick_rate = match setting(&lines, Section::Difficulty, "SliderTickRate") {
            Err(e) => {
                return Err(e);
            },
            Ok(v) => v,
        };
        let stack_leniency = match leniency {
            Some(v) => v,
            None => Rational::new(7, 10),
        };
        let hpdrain_rate = match setting(&lines, Section::Difficulty, "HPDrainRate") {
            Err(e) => {
                return Err(e);
            },
            Ok(v) => v,
        };
        let circle_size = match setting(&lines, Section::Difficulty, "CircleSize") {
            Err(e) => {
                return Err(e);
            },
            Ok(v) => v,
        };
        let overall_difficulty = match setting(&lines, Section::Difficulty, "OverallDifficulty") {
            Err(e) => {
                return Err(e);
            },
            Ok(v) => v,
        };
        let written = match setting(&lines, Section::Difficulty, "ApproachRate") {
            Err(e) => {
                return Err(e);
            },
            Ok(v) => v,
        };
        let approach_rate = if written.is_some() {
            written
        } else {
            overall_difficulty
        };
        let timing_points = match find_section(&lines, Section::TimingPoints) {
            None => {
                return Err(
                    DecodeError::new(
                        ErrorKind::StructuralError,
                        header_of(Section::TimingPoints).as_bytes(),
                    ),
                );
            },
            Some((lo, hi)) => match decode_timing_points(&lines, lo, hi) {
                Err(e) => {
                    return Err(e);
                },
                Ok(v) => v,
            },
        };
        let hit_objects = match find_section(&lines, Section::HitObjects) {
            None => {
                return Err(
                    DecodeError::new(
                        ErrorKind::StructuralError,
                        header_of(Section::HitObjects).as_bytes(),
                    ),
                );
            },
            Some((lo, hi)) => match decode_hit_objects(&lines, lo, hi) {
                Err(e) => {
                    return Err(e);
                },
                Ok(v) => v,
            },
        };
        Ok(
            Beatmap {
                file_format,
                hpdrain_rate,
                circle_size,
                overall_difficulty,
                approach_rate,
                chart: Chart {
                    stack_leniency,
                    slider_multiplier,
                    slider_tick_rate,
                    timing_points,
                    hit_objects,
                },
            },
        )
    }
}

/// Decodes the content of a chart file; see [`Beatmap::parse`].
pub fn parse_map(content: &str) -> (r: Result<Beatmap, DecodeError>)
    ensures
        crate::error::viewed(r) == spec_beatmap(content.spec_bytes()),
        r matches Ok(map) ==> map.wf(),
{
    Beatmap::parse(content.as_bytes())
}

} // verus!
