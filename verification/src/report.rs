//! Assembly of the final report.
//!
//! The report is a pure function of the pass's results: the container's
//! declared duration and time base, the final statistics, and the derived
//! millisecond values. Converting ticks to milliseconds involves the
//! floating-point scaling the container library prescribes, so the caller
//! hands the millisecond values in; everything rendered from them is
//! specified here, character by character.

use vstd::prelude::*;

use crate::format::clock_spec;
use crate::format::format_with_commas;
use crate::format::grouped_spec;
use crate::format::millis_to_clock_format;
use crate::format::push_i64;
use crate::format::signed_dec;

verus! {

/// Everything the report is computed from.
#[derive(Clone, Copy, Debug)]
pub struct ReportInputs {
    /// The container-declared duration, in time-base ticks, as reported.
    pub declared_duration_ticks: i64,
    /// The declared duration converted to milliseconds.
    pub media_duration_ms: u64,
    /// Numerator of the stream's time base.
    pub time_base_numerator: i32,
    /// Denominator of the stream's time base.
    pub time_base_denominator: i32,
    /// The final key-frame snapshot of the pass.
    pub last_key_frame_index: i64,
    /// The final frame count of the pass.
    pub frame_count: i64,
    /// The highest decode timestamp converted to milliseconds; zero when no
    /// timestamp was ever observed.
    pub last_frame_ms: u64,
    /// Wall-clock duration of the pass, in milliseconds.
    pub execution_ms: u64,
}

/// The report's lines: four of file metadata, then four calculated from the
/// frames.
pub open spec fn report_lines(r: ReportInputs) -> Seq<Seq<char>> {
    seq![
        "ictx.duration: "@ + signed_dec(r.declared_duration_ticks as int),
        "Media Duration: "@ + clock_spec(r.media_duration_ms as nat),
        "Time base numerator: "@ + signed_dec(r.time_base_numerator as int),
        "Time base denominator: "@ + signed_dec(r.time_base_denominator as int),
        "Last key frame id: "@ + grouped_spec(r.last_key_frame_index as int),
        "Frames count: "@ + grouped_spec(r.frame_count as int),
        "Last Frame Time: "@ + clock_spec(r.last_frame_ms as nat),
        "Code execution time: "@ + clock_spec(r.execution_ms as nat),
    ]
}

/// Renders the report, one line per entry, exactly as `report_lines` says.
pub fn render_report(r: &ReportInputs) -> (lines: Vec<String>)
    ensures
        lines@.len() == report_lines(*r).len(),
        forall|i: int| 0 <= i < lines@.len() ==> lines@[i]@ == report_lines(*r)[i],
{
    let mut lines: Vec<String> = Vec::new();

    let mut duration_line = String::from_str("ictx.duration: ");
    push_i64(&mut duration_line, r.declared_duration_ticks);
    lines.push(duration_line);

    let mut media_line = String::from_str("Media Duration: ");
    let media_clock = millis_to_clock_format(r.media_duration_ms);
    media_line.append(media_clock.as_str());
    lines.push(media_line);

    let mut num_line = String::from_str("Time base numerator: ");
    push_i64(&mut num_line, r.time_base_numerator as i64);
    lines.push(num_line);

    let mut den_line = String::from_str("Time base denominator: ");
    push_i64(&mut den_line, r.time_base_denominator as i64);
    lines.push(den_line);

    let mut key_line = String::from_str("Last key frame id: ");
    let key_grouped = format_with_commas(r.last_key_frame_index);
    key_line.append(key_grouped.as_str());
    lines.push(key_line);

    let mut count_line = String::from_str("Frames count: ");
    let count_grouped = format_with_commas(r.frame_count);
    count_line.append(count_grouped.as_str());
    lines.push(count_line);

    let mut frame_time_line = String::from_str("Last Frame Time: ");
    let frame_clock = millis_to_clock_format(r.last_frame_ms);
    frame_time_line.append(frame_clock.as_str());
    lines.push(frame_time_line);

    let mut exec_line = String::from_str("Code execution time: ");
    let exec_clock = millis_to_clock_format(r.execution_ms);
    exec_line.append(exec_clock.as_str());
    lines.push(exec_line);

    proof {
        assert(lines@.len() == 8);
        assert(forall|i: int| 0 <= i < lines@.len() ==> lines@[i]@ == report_lines(*r)[i]);
    }
    lines
}

} // verus!
