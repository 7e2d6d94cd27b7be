//! Command line of the capture tool: which command was asked for (`capture-h264`, `inspect`,
//! `packetize`, `encode-synthetic-h264`), the usage text, and the
//! FFmpeg arguments for camera capture.
use vstd::prelude::*;

verus! {

/// A command of the capture tool, with the file it works on.
#[derive(Debug, PartialEq, Eq)]
pub enum CliCommand {
    CaptureH264 { output_path: String },
    Inspect { input_path: String },
    Packetize { input_path: String },
    EncodeSyntheticH264 { output_path: String },
}

/// Whether two strings hold the same characters.
fn str_eq(a: &str, b: &str) -> (res: bool)
    ensures
        res == (a@ == b@),
{
    let n = a.unicode_len();
    if n != b.unicode_len() {
        return false;
    }
    let mut i: usize = 0;
    while i < n
        invariant
            n == a@.len(),
            n == b@.len(),
            i <= n,
            forall|k: int| 0 <= k < i ==> a@[k] == b@[k],
        decreases n - i,
    {
        if a.get_char(i) != b.get_char(i) {
            return false;
        }
        i += 1;
    }
    assert(a@ =~= b@);
    true
}

/// The usage text shown when the arguments name no known command; `program` is the name the
/// tool was started under.
pub open spec fn usage_text(program: Seq<char>) -> Seq<char> {
    "Usage: "@ + program + " capture-h264 <output-path>\nExample: "@ + program
        + " capture-h264 captures/rust-camera.h264"@
}

/// The usage text shown when there are no arguments at all.
pub open spec fn default_usage_text() -> Seq<char> {
    "Usage: video-capture capture-h264 <output-path>\nExample: video-capture capture-h264 captures/rust-camera.h264"@
}

/// Reads the command from the program arguments (the first one is the program name):
/// `capture-h264 <output>`, `inspect <input>`, `packetize <input>` or
/// `encode-synthetic-h264 <output>`; anything else gives the usage text.
pub fn parse_cli(args: Vec<String>) -> (res: Result<CliCommand, String>)
    ensures
        args.len() == 3 && args[1]@ == "capture-h264"@ ==> (res matches Ok(
            CliCommand::CaptureH264 { output_path },
        ) && output_path@ == args[2]@),
        args.len() == 3 && args[1]@ != "capture-h264"@ && args[1]@ == "inspect"@ ==> (res matches Ok(
            CliCommand::Inspect { input_path },
        ) && input_path@ == args[2]@),
        args.len() == 3 && args[1]@ != "capture-h264"@ && args[1]@ != "inspect"@ && args[1]@
            == "packetize"@ ==> (res matches Ok(CliCommand::Packetize { input_path })
            && input_path@ == args[2]@),
        args.len() == 3 && args[1]@ != "capture-h264"@ && args[1]@ != "inspect"@ && args[1]@
            != "packetize"@ && args[1]@ == "encode-synthetic-h264"@ ==> (res matches Ok(
            CliCommand::EncodeSyntheticH264 { output_path },
        ) && output_path@ == args[2]@),
        !(args.len() == 3 && (args[1]@ == "capture-h264"@ || args[1]@ == "inspect"@ || args[1]@
            == "packetize"@ || args[1]@ == "encode-synthetic-h264"@)) && args.len() >= 1 ==> (
        res matches Err(e) && e@ == usage_text(
            args[0]@,
        )),
        args.len() == 0 ==> (res matches Err(e) && e@ == default_usage_text()),
{
    if args.len() == 3 {
        let command = args[1].as_str();
        if str_eq(command, "capture-h264") {
            return Ok(CliCommand::CaptureH264 { output_path: args[2].clone() });
        }
        if str_eq(command, "inspect") {
            return Ok(CliCommand::Inspect { input_path: args[2].clone() });
        }
        if str_eq(command, "packetize") {
            return Ok(CliCommand::Packetize { input_path: args[2].clone() });
        }
        if str_eq(command, "encode-synthetic-h264") {
            return Ok(CliCommand::EncodeSyntheticH264 { output_path: args[2].clone() });
        }
    }
    if args.len() >= 1 {
        let program = args[0].as_str();
        let mut usage = String::from_str("Usage: ");
        usage.append(program);
        usage.append(" capture-h264 <output-path>\nExample: ");
        usage.append(program);
        usage.append(" capture-h264 captures/rust-camera.h264");
        Err(usage)
    } else {
        Err(
            String::from_str(
                "Usage: video-capture capture-h264 <output-path>\nExample: video-capture capture-h264 captures/rust-camera.h264",
            ),
        )
    }
}

/// The FFmpeg arguments that capture camera 0 through AVFoundation at 1280x720 and 30 fps and
/// encode it with libx264 (ultrafast, zero latency, one keyframe every 30 frames) into a raw
/// H.264 stream at `output`.
pub open spec fn ffmpeg_capture_args(output: Seq<char>) -> Seq<Seq<char>> {
    seq![
        "-f"@,
        "avfoundation"@,
        "-framerate"@,
        "30"@,
        "-video_size"@,
        "1280x720"@,
        "-i"@,
        "0"@,
        "-c:v"@,
        "libx264"@,
        "-preset"@,
        "ultrafast"@,
        "-tune"@,
        "zerolatency"@,
        "-g"@,
        "30"@,
        "-keyint_min"@,
        "30"@,
        "-sc_threshold"@,
        "0"@,
        "-f"@,
        "h264"@,
        output,
    ]
}

/// The FFmpeg arguments for capturing the camera into a raw H.264 file.
pub fn build_ffmpeg_capture_args<'a>(output_path: &'a str) -> (res: Vec<&'a str>)
    ensures
        res@.map_values(|s: &str| s@) == ffmpeg_capture_args(output_path@),
{
    let res: Vec<&'a str> = vec![
        "-f",
        "avfoundation",
        "-framerate",
        "30",
        "-video_size",
        "1280x720",
        "-i",
        "0",
        "-c:v",
        "libx264",
        "-preset",
        "ultrafast",
        "-tune",
        "zerolatency",
        "-g",
        "30",
        "-keyint_min",
        "30",
        "-sc_threshold",
        "0",
        "-f",
        "h264",
        output_path,
    ];
    assert(res@.map_values(|s: &str| s@) =~= ffmpeg_capture_args(output_path@));
    res
}

} // verus!
