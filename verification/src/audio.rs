//! Audio output: which controller and capture tool to use, and what their
//! text output means where no floating point is involved.
use vstd::prelude::*;
use crate::text::{
    chars_of, find_text, first_occurrence, slice_chars, trim, trim_chars, ascii_lower_seq,
    ascii_lowercase_chars, has_prefix, starts_with, contains_chars, contains_seq,
};
use crate::launch::{Launch, launch, launch_views};

verus! {

/// How the default sink is controlled.
#[derive(Clone, Copy, Debug, PartialEq, Eq, Structural)]
pub enum Backend {
    /// PipeWire, through `wpctl`.
    WirePlumber,
    /// PulseAudio or PipeWire's compatibility layer, through `pactl`.
    PulseAudio,
}

/// The controller to use given which tools are installed: WirePlumber when
/// `wpctl` is, otherwise PulseAudio when `pactl` is.
pub fn backend(wpctl_found: bool, pactl_found: bool) -> (r: Option<Backend>)
    ensures
        r == (if wpctl_found {
            Some(Backend::WirePlumber)
        } else if pactl_found {
            Some(Backend::PulseAudio)
        } else {
            None
        }),
{
    if wpctl_found {
        Some(Backend::WirePlumber)
    } else if pactl_found {
        Some(Backend::PulseAudio)
    } else {
        None
    }
}

/// What `pactl get-sink-mute` means: `Mute: yes` (in any case, after any
/// whitespace) is muted, any other value is not, and text without the label
/// says nothing.
pub open spec fn pactl_mute_of(text: Seq<char>) -> Option<bool> {
    match first_occurrence(text, "Mute:"@) {
        Some(i) => Some(starts_with(ascii_lower_seq(trim(text.skip(i + 5))), "yes"@)),
        None => None,
    }
}

/// Parse `pactl get-sink-mute` output.
pub fn parse_pactl_mute(text: &str) -> (r: Option<bool>)
    ensures
        r == pactl_mute_of(text@),
{
    proof {
        reveal_strlit("Mute:");
    }
    let chars = chars_of(text);
    let label = chars_of("Mute:");
    match find_text(&chars, &label) {
        Some(i) => {
            let rest = slice_chars(&chars, i + 5, chars.len());
            assert(rest@ =~= text@.skip(i + 5));
            let value = ascii_lowercase_chars(&trim_chars(&rest));
            let yes = chars_of("yes");
            Some(has_prefix(&value, &yes))
        },
        None => None,
    }
}

/// Whether a line from `pactl subscribe` reports a change to a sink or to
/// the server, which is when the level is read again.
pub fn is_sink_event(line: &str) -> (r: bool)
    ensures
        r == (contains_seq(line@, "sink"@) || contains_seq(line@, "server"@)),
{
    let chars = chars_of(line);
    let sink = chars_of("sink");
    let server = chars_of("server");
    contains_chars(&chars, &sink) || contains_chars(&chars, &server)
}

/// What to do after `pactl subscribe` exits, having failed quickly
/// `quick_failures` times in a row before: an exit within a second counts as
/// one more, and the second in a row means this system cannot subscribe, so
/// the watcher stops trying (`None`); a longer run resets the count.
pub fn after_subscription_exit(quick_failures: u32, ran_under_a_second: bool) -> (r: Option<u32>)
    requires
        quick_failures < 2,
    ensures
        ran_under_a_second ==> r == (if quick_failures + 1 >= 2 {
            None
        } else {
            Some((quick_failures + 1) as u32)
        }),
        !ran_under_a_second ==> r == Some(0u32),
{
    if ran_under_a_second {
        let failures = quick_failures + 1;
        if failures >= 2 {
            None
        } else {
            Some(failures)
        }
    } else {
        Some(0)
    }
}

/// The sample rate the visualizer captures at.
pub const SAMPLE_RATE: u32 = 44100;

/// The capture tool for the visualizer and its arguments, given where
/// `pw-record` and `parec` were found: `pw-record` streaming the default
/// sink's monitor when installed, else `parec` on the default monitor.
pub fn capture_command(pw_record: Option<String>, parec: Option<String>) -> (r: Option<Launch>)
    ensures
        match pw_record {
            Some(p) => r matches Some(l) && launch_views(seq![l]) == seq![(p@, seq![
                "--format=s16"@,
                "--rate=44100"@,
                "--channels=1"@,
                "-P"@,
                "stream.capture.sink=true"@,
                "-"@,
            ])],
            None => match parec {
                Some(p) => r matches Some(l) && launch_views(seq![l]) == seq![(p@, seq![
                    "--format=s16le"@,
                    "--rate=44100"@,
                    "--channels=1"@,
                    "--device=@DEFAULT_MONITOR@"@,
                ])],
                None => r is None,
            },
        },
{
    match pw_record {
        Some(program) => {
            let l = launch(
                program.as_str(),
                &["--format=s16", "--rate=44100", "--channels=1", "-P", "stream.capture.sink=true", "-"],
            );
            proof {
                let v = launch_views(seq![l]);
                assert(v[0].1 =~= seq![
                    "--format=s16"@,
                    "--rate=44100"@,
                    "--channels=1"@,
                    "-P"@,
                    "stream.capture.sink=true"@,
                    "-"@,
                ]);
            }
            Some(l)
        },
        None => match parec {
            Some(program) => {
                let l = launch(
                    program.as_str(),
                    &["--format=s16le", "--rate=44100", "--channels=1", "--device=@DEFAULT_MONITOR@"],
                );
                proof {
                    let v = launch_views(seq![l]);
                    assert(v[0].1 =~= seq![
                        "--format=s16le"@,
                        "--rate=44100"@,
                        "--channels=1"@,
                        "--device=@DEFAULT_MONITOR@"@,
                    ]);
                }
                Some(l)
            },
            None => None,
        },
    }
}

} // verus!
