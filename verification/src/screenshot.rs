//! The screenshot tool: its command line, and the decisions and names
//! around running `slurp`, `grim` and `wl-copy`.
use vstd::prelude::*;

use crate::breadcrumb::push_name;
use crate::errors::ScreenshotError;
use crate::notes::join_path;
use crate::text::{chars_eq_str, chars_of, concat2, concat3, dec_chars, dec_seq, extend_chars, string_of, trim, trim_seq};

verus! {

/// Whether the whole screen or a selected region is captured.
#[derive(Debug, Clone, Copy, PartialEq, Eq, Structural)]
pub enum CaptureMode {
    Region,
    FullScreen,
}

/// Where the captured picture goes.
#[derive(Debug, Clone, Copy, PartialEq, Eq, Structural)]
pub enum CaptureTarget {
    Clipboard,
    Save,
}

/// What a command line asks for.
#[derive(Debug, Clone, Copy, PartialEq, Eq, Structural)]
pub enum CliAction {
    /// Print the usage text.
    Help,
    /// Take a screenshot.
    Capture(CaptureMode, CaptureTarget),
}

/// The outcome of reading the arguments `args` when the options read so far
/// chose `mode` and `target`: arguments are read in order; the last mode and
/// target options win; a help option stops reading; an unknown argument is
/// an error naming it.
pub open spec fn cli_outcome(args: Seq<Seq<char>>, mode: CaptureMode, target: CaptureTarget) -> Result<
    CliAction,
    Seq<char>,
>
    decreases args.len(),
{
    if args.len() == 0 {
        Ok(CliAction::Capture(mode, target))
    } else {
        let a = args[0];
        let rest = args.drop_first();
        if a == "--region"@ {
            cli_outcome(rest, CaptureMode::Region, target)
        } else if a == "--full"@ || a == "--fullscreen"@ {
            cli_outcome(rest, CaptureMode::FullScreen, target)
        } else if a == "--clipboard"@ || a == "-c"@ {
            cli_outcome(rest, mode, CaptureTarget::Clipboard)
        } else if a == "--save"@ || a == "-s"@ {
            cli_outcome(rest, mode, CaptureTarget::Save)
        } else if a == "--help"@ || a == "-h"@ {
            Ok(CliAction::Help)
        } else {
            Err("Unknown argument: "@ + a)
        }
    }
}

/// Reads the screenshot tool's command line (the arguments after the
/// program name). By default a region goes to the clipboard.
pub fn run_cli(args: &Vec<String>) -> (r: Result<CliAction, ScreenshotError>)
    ensures
        match cli_outcome(args@.map_values(|a: String| a@), CaptureMode::Region, CaptureTarget::Clipboard) {
            Ok(action) => r == Ok::<CliAction, ScreenshotError>(action),
            Err(m) => r matches Err(ScreenshotError::Capture(s)) && s@ == m,
        },
{
    let ghost av = args@.map_values(|a: String| a@);
    let mut mode = CaptureMode::Region;
    let mut target = CaptureTarget::Clipboard;
    let mut i: usize = 0;
    assert(av.skip(0) =~= av);
    while i < args.len()
        invariant
            i <= args.len(),
            av == args@.map_values(|a: String| a@),
            cli_outcome(av, CaptureMode::Region, CaptureTarget::Clipboard) == cli_outcome(
                av.skip(i as int),
                mode,
                target,
            ),
        decreases args.len() - i,
    {
        let a = chars_of(args[i].as_str());
        assert(av.skip(i as int)[0] == a@);
        assert(av.skip(i as int).drop_first() =~= av.skip(i + 1));
        if chars_eq_str(&a, "--region") {
            mode = CaptureMode::Region;
        } else if chars_eq_str(&a, "--full") || chars_eq_str(&a, "--fullscreen") {
            mode = CaptureMode::FullScreen;
        } else if chars_eq_str(&a, "--clipboard") || chars_eq_str(&a, "-c") {
            target = CaptureTarget::Clipboard;
        } else if chars_eq_str(&a, "--save") || chars_eq_str(&a, "-s") {
            target = CaptureTarget::Save;
        } else if chars_eq_str(&a, "--help") || chars_eq_str(&a, "-h") {
            return Ok(CliAction::Help);
        } else {
            return Err(ScreenshotError::Capture(concat2("Unknown argument: ", args[i].as_str())));
        }
        i = i + 1;
    }
    assert(av.skip(i as int) =~= Seq::<Seq<char>>::empty());
    Ok(CliAction::Capture(mode, target))
}

/// The usage text printed for `--help`.
pub fn help_text() -> (r: String)
    ensures
        r@ == "xos-screenshot — XOS screenshot tool\n\nUsage:\n  xos-screenshot [--region|--full] [--clipboard|--save]\n\nOptions:\n  --region       Capture selected region (default)\n  --full         Capture full screen\n  --clipboard    Copy PNG to clipboard (default)\n  --save         Save PNG to ~/Pictures/\n\nRun without arguments to open the GUI."@,
{
    string_of(
        &chars_of(
            "xos-screenshot — XOS screenshot tool\n\nUsage:\n  xos-screenshot [--region|--full] [--clipboard|--save]\n\nOptions:\n  --region       Capture selected region (default)\n  --full         Capture full screen\n  --clipboard    Copy PNG to clipboard (default)\n  --save         Save PNG to ~/Pictures/\n\nRun without arguments to open the GUI.",
        ),
    )
}

/// The region to capture, from what `slurp` did: whether it succeeded and
/// what it printed (decoded as text).
pub fn region_from_slurp(success: bool, output: &str) -> (r: Result<String, String>)
    ensures
        !success ==> (r matches Err(m) && m@ == "Region selection cancelled"@),
        success && trim_seq(output@).len() == 0 ==> (r matches Err(m) && m@ == "No region selected"@),
        success && trim_seq(output@).len() > 0 ==> (r matches Ok(g) && g@ == trim_seq(output@)),
{
    if !success {
        return Err(string_of(&chars_of("Region selection cancelled")));
    }
    let o = chars_of(output);
    let g = trim(&o);
    if g.len() == 0 {
        Err(string_of(&chars_of("No region selected")))
    } else {
        Ok(string_of(&g))
    }
}

/// The arguments given to `grim` before the output path: none for the full
/// screen, `-g` and the region otherwise.
pub fn grim_arguments(mode: CaptureMode, geometry: &str) -> (r: Vec<String>)
    ensures
        mode == CaptureMode::FullScreen ==> r@.len() == 0,
        mode == CaptureMode::Region ==> r@.len() == 2 && r@[0]@ == "-g"@ && r@[1]@ == geometry@,
{
    let mut v: Vec<String> = Vec::new();
    if mode == CaptureMode::Region {
        v.push(string_of(&chars_of("-g")));
        v.push(string_of(&chars_of(geometry)));
    }
    v
}

/// The result of a helper program that exited with `success`; the error
/// names the program.
pub fn tool_result(success: bool, tool: &str) -> (r: Result<(), String>)
    ensures
        success ==> r is Ok,
        !success ==> (r matches Err(m) && m@ == tool@ + " exited with an error"@),
{
    if success {
        Ok(())
    } else {
        Err(concat2(tool, " exited with an error"))
    }
}

/// Where a saved screenshot goes: `Pictures/screenshot-<seconds>.png` in the
/// home folder `home`, taken at `timestamp` seconds since the epoch.
pub fn save_path(home: &str, timestamp: u64) -> (r: String)
    ensures
        r@ == push_name(push_name(home@, "Pictures"@), "screenshot-"@ + dec_seq(timestamp as nat) + ".png"@),
{
    let pictures = join_path(home, "Pictures");
    let mut name = chars_of("screenshot-");
    let n = dec_chars(timestamp);
    extend_chars(&mut name, &n);
    let png = chars_of(".png");
    extend_chars(&mut name, &png);
    let file = string_of(&name);
    join_path(pictures.as_str(), file.as_str())
}

/// The name of the temporary file for a capture to the clipboard, taken at
/// `millis` milliseconds since the epoch.
pub fn clipboard_temp_name(millis: u64) -> (r: String)
    ensures
        r@ == "xos-screenshot-"@ + dec_seq(millis as nat) + ".png"@,
{
    let mut name = chars_of("xos-screenshot-");
    let n = dec_chars(millis);
    extend_chars(&mut name, &n);
    let png = chars_of(".png");
    extend_chars(&mut name, &png);
    string_of(&name)
}

/// The message shown after a successful capture.
pub fn capture_done_message(target: CaptureTarget) -> (r: String)
    ensures
        target == CaptureTarget::Clipboard ==> r@ == "Screenshot copied to clipboard"@,
        target == CaptureTarget::Save ==> r@ == "Screenshot saved to Pictures"@,
{
    match target {
        CaptureTarget::Clipboard => string_of(&chars_of("Screenshot copied to clipboard")),
        CaptureTarget::Save => string_of(&chars_of("Screenshot saved to Pictures")),
    }
}

/// The argument is one of the mode or target options.
pub open spec fn is_capture_option(a: Seq<char>) -> bool {
    ||| a == "--region"@
    ||| a == "--full"@
    ||| a == "--fullscreen"@
    ||| a == "--clipboard"@
    ||| a == "-c"@
    ||| a == "--save"@
    ||| a == "-s"@
}

/// The mode after the argument `a` when the mode was `m`.
pub open spec fn mode_after(a: Seq<char>, m: CaptureMode) -> CaptureMode {
    if a == "--region"@ {
        CaptureMode::Region
    } else if a == "--full"@ || a == "--fullscreen"@ {
        CaptureMode::FullScreen
    } else {
        m
    }
}

/// The target after the argument `a` when the target was `t`.
pub open spec fn target_after(a: Seq<char>, t: CaptureTarget) -> CaptureTarget {
    if a == "--clipboard"@ || a == "-c"@ {
        CaptureTarget::Clipboard
    } else if a == "--save"@ || a == "-s"@ {
        CaptureTarget::Save
    } else {
        t
    }
}

/// The mode named by the last mode option of `args` (`m` when there is none).
pub open spec fn last_mode(args: Seq<Seq<char>>, m: CaptureMode) -> CaptureMode
    decreases args.len(),
{
    if args.len() == 0 {
        m
    } else if args.last() == "--region"@ {
        CaptureMode::Region
    } else if args.last() == "--full"@ || args.last() == "--fullscreen"@ {
        CaptureMode::FullScreen
    } else {
        last_mode(args.drop_last(), m)
    }
}

/// The target named by the last target option of `args` (`t` when there is
/// none).
pub open spec fn last_target(args: Seq<Seq<char>>, t: CaptureTarget) -> CaptureTarget
    decreases args.len(),
{
    if args.len() == 0 {
        t
    } else if args.last() == "--clipboard"@ || args.last() == "-c"@ {
        CaptureTarget::Clipboard
    } else if args.last() == "--save"@ || args.last() == "-s"@ {
        CaptureTarget::Save
    } else {
        last_target(args.drop_last(), t)
    }
}

/// The option words differ from one another.
proof fn lemma_options_differ()
    ensures
        "--region"@ != "--full"@,
        "--region"@ != "--fullscreen"@,
        "--region"@ != "--clipboard"@,
        "--region"@ != "-c"@,
        "--region"@ != "--save"@,
        "--region"@ != "-s"@,
        "--region"@ != "--help"@,
        "--region"@ != "-h"@,
        "--full"@ != "--fullscreen"@,
        "--full"@ != "--clipboard"@,
        "--full"@ != "-c"@,
        "--full"@ != "--save"@,
        "--full"@ != "-s"@,
        "--full"@ != "--help"@,
        "--full"@ != "-h"@,
        "--fullscreen"@ != "--clipboard"@,
        "--fullscreen"@ != "-c"@,
        "--fullscreen"@ != "--save"@,
        "--fullscreen"@ != "-s"@,
        "--fullscreen"@ != "--help"@,
        "--fullscreen"@ != "-h"@,
        "--clipboard"@ != "-c"@,
        "--clipboard"@ != "--save"@,
        "--clipboard"@ != "-s"@,
        "--clipboard"@ != "--help"@,
        "--clipboard"@ != "-h"@,
        "-c"@ != "--save"@,
        "-c"@ != "-s"@,
        "-c"@ != "--help"@,
        "-c"@ != "-h"@,
        "--save"@ != "-s"@,
        "--save"@ != "--help"@,
        "--save"@ != "-h"@,
        "-s"@ != "--help"@,
        "-s"@ != "-h"@,
        "--help"@ != "-h"@,
{
    reveal_strlit("--region");
    reveal_strlit("--full");
    reveal_strlit("--fullscreen");
    reveal_strlit("--clipboard");
    reveal_strlit("-c");
    reveal_strlit("--save");
    reveal_strlit("-s");
    reveal_strlit("--help");
    reveal_strlit("-h");
    assert("--region"@.len() != "--full"@.len());
    assert("--region"@.len() != "--fullscreen"@.len());
    assert("--region"@.len() != "--clipboard"@.len());
    assert("--region"@.len() != "-c"@.len());
    assert("--region"@.len() != "--save"@.len());
    assert("--region"@.len() != "-s"@.len());
    assert("--region"@.len() != "--help"@.len());
    assert("--region"@.len() != "-h"@.len());
    assert("--full"@.len() != "--fullscreen"@.len());
    assert("--full"@.len() != "--clipboard"@.len());
    assert("--full"@.len() != "-c"@.len());
    assert("--full"@[2] != "--save"@[2]);
    assert("--full"@.len() != "-s"@.len());
    assert("--full"@[2] != "--help"@[2]);
    assert("--full"@.len() != "-h"@.len());
    assert("--fullscreen"@.len() != "--clipboard"@.len());
    assert("--fullscreen"@.len() != "-c"@.len());
    assert("--fullscreen"@.len() != "--save"@.len());
    assert("--fullscreen"@.len() != "-s"@.len());
    assert("--fullscreen"@.len() != "--help"@.len());
    assert("--fullscreen"@.len() != "-h"@.len());
    assert("--clipboard"@.len() != "-c"@.len());
    assert("--clipboard"@.len() != "--save"@.len());
    assert("--clipboard"@.len() != "-s"@.len());
    assert("--clipboard"@.len() != "--help"@.len());
    assert("--clipboard"@.len() != "-h"@.len());
    assert("-c"@.len() != "--save"@.len());
    assert("-c"@[1] != "-s"@[1]);
    assert("-c"@.len() != "--help"@.len());
    assert("-c"@[1] != "-h"@[1]);
    assert("--save"@.len() != "-s"@.len());
    assert("--save"@[2] != "--help"@[2]);
    assert("--save"@.len() != "-h"@.len());
    assert("-s"@.len() != "--help"@.len());
    assert("-s"@[1] != "-h"@[1]);
    assert("--help"@.len() != "-h"@.len());
}

/// An option read first passes its effect on to the rest of the arguments.
proof fn lemma_option_step(args: Seq<Seq<char>>, m: CaptureMode, t: CaptureTarget)
    requires
        args.len() > 0,
        is_capture_option(args[0]),
    ensures
        cli_outcome(args, m, t) == cli_outcome(args.drop_first(), mode_after(args[0], m), target_after(args[0], t)),
{
    lemma_options_differ();
}

/// Reading the first option, then the last ones of the rest, gives the last
/// ones of all.
proof fn lemma_last_after_first(args: Seq<Seq<char>>, m: CaptureMode, t: CaptureTarget)
    requires
        args.len() > 0,
    ensures
        last_mode(args, m) == last_mode(args.drop_first(), mode_after(args[0], m)),
        last_target(args, t) == last_target(args.drop_first(), target_after(args[0], t)),
    decreases args.len(),
{
    if args.len() > 1 {
        lemma_last_after_first(args.drop_last(), m, t);
        assert(args.drop_last().drop_first() =~= args.drop_first().drop_last());
        assert(args.drop_first().last() == args.last());
        assert(args.drop_last()[0] == args[0]);
    } else {
        assert(args.drop_first() =~= Seq::<Seq<char>>::empty());
        assert(args.last() == args[0]);
        assert(args.drop_last() =~= Seq::<Seq<char>>::empty());
    }
}

/// When every argument is a mode or target option, a capture is made with
/// the mode and the target of the last such options (`m` and `t` when
/// there are none).
pub proof fn law_last_options_win(args: Seq<Seq<char>>, m: CaptureMode, t: CaptureTarget)
    requires
        forall|i: int| 0 <= i < args.len() ==> is_capture_option(#[trigger] args[i]),
    ensures
        cli_outcome(args, m, t) == Ok::<CliAction, Seq<char>>(CliAction::Capture(last_mode(args, m), last_target(args, t))),
    decreases args.len(),
{
    if args.len() > 0 {
        lemma_option_step(args, m, t);
        let rest = args.drop_first();
        assert forall|i: int| 0 <= i < rest.len() implies is_capture_option(#[trigger] rest[i]) by {
            assert(rest[i] == args[i + 1]);
        }
        law_last_options_win(rest, mode_after(args[0], m), target_after(args[0], t));
        lemma_last_after_first(args, m, t);
    }
}

/// The first argument that is not a mode or target option decides: a help
/// option asks for the usage text, anything else is refused by name, and
/// the arguments after it are not read.
pub proof fn law_first_other_argument_decides(args: Seq<Seq<char>>, k: int, m: CaptureMode, t: CaptureTarget)
    requires
        0 <= k < args.len(),
        !is_capture_option(args[k]),
        forall|i: int| 0 <= i < k ==> is_capture_option(#[trigger] args[i]),
    ensures
        cli_outcome(args, m, t) == (if args[k] == "--help"@ || args[k] == "-h"@ {
            Ok::<CliAction, Seq<char>>(CliAction::Help)
        } else {
            Err::<CliAction, Seq<char>>("Unknown argument: "@ + args[k])
        }),
    decreases k,
{
    if k > 0 {
        lemma_option_step(args, m, t);
        let rest = args.drop_first();
        assert(rest[k - 1] == args[k]);
        assert forall|i: int| 0 <= i < k - 1 implies is_capture_option(#[trigger] rest[i]) by {
            assert(rest[i] == args[i + 1]);
        }
        law_first_other_argument_decides(rest, k - 1, mode_after(args[0], m), target_after(args[0], t));
    } else {
        lemma_options_differ();
    }
}

} // verus!
