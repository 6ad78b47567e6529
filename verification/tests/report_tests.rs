use frametally::errors::MediaError;
use frametally::report::render_report;
use frametally::report::ReportInputs;

#[test]
fn report_renders_every_line() {
    let inputs = ReportInputs {
        declared_duration_ticks: 1_350_000,
        media_duration_ms: 90_000,
        time_base_numerator: 1,
        time_base_denominator: 15_000,
        last_key_frame_index: 2_690,
        frame_count: 2_700,
        last_frame_ms: 89_933,
        execution_ms: 3_661_234,
    };
    let lines = render_report(&inputs);
    assert_eq!(lines.len(), 8);
    assert_eq!(lines[0], "ictx.duration: 1350000");
    assert_eq!(lines[1], "Media Duration: 01m 30s .000ms");
    assert_eq!(lines[2], "Time base numerator: 1");
    assert_eq!(lines[3], "Time base denominator: 15000");
    assert_eq!(lines[4], "Last key frame id: 2,690");
    assert_eq!(lines[5], "Frames count: 2,700");
    assert_eq!(lines[6], "Last Frame Time: 01m 29s .933ms");
    assert_eq!(lines[7], "Code execution time: 01h 01m 01s .234ms");
}

#[test]
fn report_handles_negative_ticks_and_empty_pass() {
    let inputs = ReportInputs {
        declared_duration_ticks: -9,
        media_duration_ms: 0,
        time_base_numerator: -1,
        time_base_denominator: 1,
        last_key_frame_index: 0,
        frame_count: 0,
        last_frame_ms: 0,
        execution_ms: 0,
    };
    let lines = render_report(&inputs);
    assert_eq!(lines[0], "ictx.duration: -9");
    assert_eq!(lines[1], "Media Duration: 00m 00s .000ms");
    assert_eq!(lines[2], "Time base numerator: -1");
    assert_eq!(lines[3], "Time base denominator: 1");
    assert_eq!(lines[4], "Last key frame id: 0");
    assert_eq!(lines[5], "Frames count: 0");
    assert_eq!(lines[6], "Last Frame Time: 00m 00s .000ms");
    assert_eq!(lines[7], "Code execution time: 00m 00s .000ms");
}

#[test]
fn error_descriptions() {
    assert_eq!(MediaError::NoVideoStream.describe(), "No video stream found");
    assert_eq!(MediaError::ContainerOpen.describe(), "Could not open the container");
    assert_eq!(MediaError::DecoderConstruction.describe(), "Could not construct a decoder");
    assert_eq!(MediaError::Decode.describe(), "Decode failure");
}
