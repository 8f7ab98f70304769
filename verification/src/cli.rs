//! Command-line handling of the capture daemon: the usage text, the camera
//! device path, and the argument parser, fed one argument at a time.

use crate::ring::CAM_RING_DEFAULT;
use vstd::string::StrSliceExecFns;
use vstd::prelude::*;

verus! {

/// The usage text.
pub open spec fn usage_text() -> Seq<char> {
    "usage: camerad [--camera <index|path>] [--path <ring>] [--mirror] [--fps <fps>] [--preview] [-v|--log]\nowns the webcam, publishes RGB8 frames to the shared cam_ring\n--camera  camera index or device path (default 0)\n--path    shared-memory ring file (default "@
        + CAM_RING_DEFAULT@
        + ")\n--mirror  flip frames horizontally\n--fps     cap the publish rate (0 = as fast as the camera)\n--preview no window; prints ring geometry + publish statistics\n-v, --log log the startup line and publish statistics (default: silent)"@
}

/// Returns the usage text.
pub fn usage() -> (r: String)
    ensures
        r@ == usage_text(),
{
    let mut s = "usage: camerad [--camera <index|path>] [--path <ring>] [--mirror] [--fps <fps>] [--preview] [-v|--log]\nowns the webcam, publishes RGB8 frames to the shared cam_ring\n--camera  camera index or device path (default 0)\n--path    shared-memory ring file (default ".to_owned();
    s.append(CAM_RING_DEFAULT);
    s.append(
        ")\n--mirror  flip frames horizontally\n--fps     cap the publish rate (0 = as fast as the camera)\n--preview no window; prints ring geometry + publish statistics\n-v, --log log the startup line and publish statistics (default: silent)",
    );
    s
}


/// `c` is one of `0`..`9`.
pub open spec fn is_digit(c: char) -> bool {
    '0' <= c <= '9'
}

/// `s` is a non-empty string of decimal digits.
pub open spec fn is_camera_index(s: Seq<char>) -> bool {
    s.len() > 0 && forall|i: int| 0 <= i < s.len() ==> is_digit(#[trigger] s[i])
}

/// The device path a `--camera` value names: `/dev/videoN` for an index `N`,
/// the value itself otherwise.
pub open spec fn device_path(s: Seq<char>) -> Seq<char> {
    if is_camera_index(s) {
        "/dev/video"@ + s
    } else {
        s
    }
}

/// Turns a `--camera` value (an index or a device path) into a device path.
pub fn resolve_device(spec: &str) -> (r: String)
    ensures
        r@ == device_path(spec@),
{
    let n = spec.unicode_len();
    let mut all_digits = true;
    let mut i: usize = 0;
    while i < n
        invariant
            n == spec@.len(),
            0 <= i <= n,
            all_digits <==> (forall|j: int| 0 <= j < i ==> is_digit(#[trigger] spec@[j])),
        decreases n - i,
    {
        let c = spec.get_char(i);
        if !('0' <= c && c <= '9') {
            all_digits = false;
        }
        i += 1;
    }
    if !spec.is_empty() && all_digits {
        let mut p = "/dev/video".to_owned();
        p.append(spec);
        p
    } else {
        spec.to_owned()
    }
}


/// What `format!("{:?}", s)` gives for the string `s`.
pub uninterp spec fn debug_quoted(s: Seq<char>) -> Seq<char>;

/// `s` holds only printable ASCII other than `"` and `\`, which `Debug`
/// leaves unescaped.
pub open spec fn is_plain_ascii(s: Seq<char>) -> bool {
    forall|i: int|
        0 <= i < s.len() ==> (' ' <= #[trigger] s[i] <= '~' && s[i] != '"' && s[i] != '\\')
}

/// `format!("{:?}", s)` from std: `s` in double quotes, with `"`, `\` and
/// characters that are not printable escaped. The contract states the quoting
/// only for plain printable ASCII; the escapes are left to the name
/// `debug_quoted`.
#[verifier::external_body]
fn debug_quote(s: &str) -> (r: String)
    ensures
        r@ == debug_quoted(s@),
        is_plain_ascii(s@) ==> r@ == seq!['"'] + s@ + seq!['"'],
{
    format!("{:?}", s)
}

/// `arg` is the text `lit`.
fn is_arg(arg: &String, lit: &str) -> (r: bool)
    ensures
        r == (arg@ == lit@),
{
    *arg == lit.to_owned()
}

/// The flag whose value the next argument is.
#[derive(Debug, Clone, Copy, PartialEq, Eq, Structural)]
pub enum PendingValue {
    Nothing,
    Camera,
    Path,
    Fps,
}

/// What the caller does after feeding one argument.
pub enum ArgEvent {
    /// Feed the next argument.
    Continue,
    /// Parse this `--fps` value as a number (failing with
    /// `invalid fps {value:?}` if it is not one), then feed the next argument.
    ParseFps(String),
    /// Print the usage text and exit successfully.
    ShowHelp,
    /// Stop with this error.
    Fail(String),
}

/// The settings parsed from the command line (all but `--fps`, whose value
/// the caller parses when asked to).
pub struct CliArgs {
    pub camera: String,
    pub path: String,
    pub preview: bool,
    pub log: bool,
    pub mirror: bool,
}

/// Command-line parser, fed the arguments (without the program name) one at
/// a time.
pub struct ArgParser {
    pub camera: String,
    pub path: String,
    pub preview: bool,
    pub log: bool,
    pub mirror: bool,
    pub pending: PendingValue,
}

/// The flags of `p` and `q` agree.
pub open spec fn same_flags(p: &ArgParser, q: &ArgParser) -> bool {
    p.preview == q.preview && p.log == q.log && p.mirror == q.mirror
}

/// The error text for an argument that is not a flag.
pub open spec fn unknown_argument_text(arg: Seq<char>) -> Seq<char> {
    "unknown argument "@ + debug_quoted(arg) + "\n"@ + usage_text()
}

/// The flags are different texts.
proof fn lemma_flag_names_distinct()
    ensures
        "--camera"@ != "--path"@,
        "--camera"@ != "--preview"@,
        "--camera"@ != "-v"@,
        "--camera"@ != "--log"@,
        "--camera"@ != "--mirror"@,
        "--camera"@ != "--fps"@,
        "--camera"@ != "-h"@,
        "--camera"@ != "--help"@,
        "--path"@ != "--preview"@,
        "--path"@ != "-v"@,
        "--path"@ != "--log"@,
        "--path"@ != "--mirror"@,
        "--path"@ != "--fps"@,
        "--path"@ != "-h"@,
        "--path"@ != "--help"@,
        "--preview"@ != "-v"@,
        "--preview"@ != "--log"@,
        "--preview"@ != "--mirror"@,
        "--preview"@ != "--fps"@,
        "--preview"@ != "-h"@,
        "--preview"@ != "--help"@,
        "-v"@ != "--log"@,
        "-v"@ != "--mirror"@,
        "-v"@ != "--fps"@,
        "-v"@ != "-h"@,
        "-v"@ != "--help"@,
        "--log"@ != "--mirror"@,
        "--log"@ != "--fps"@,
        "--log"@ != "-h"@,
        "--log"@ != "--help"@,
        "--mirror"@ != "--fps"@,
        "--mirror"@ != "-h"@,
        "--mirror"@ != "--help"@,
        "--fps"@ != "-h"@,
        "--fps"@ != "--help"@,
        "-h"@ != "--help"@,
{
    reveal_strlit("--camera");
    reveal_strlit("--path");
    reveal_strlit("--preview");
    reveal_strlit("-v");
    reveal_strlit("--log");
    reveal_strlit("--mirror");
    reveal_strlit("--fps");
    reveal_strlit("-h");
    reveal_strlit("--help");
    assert("--camera"@.len() == 8);
    assert("--path"@.len() == 6);
    assert("--preview"@.len() == 9);
    assert("-v"@.len() == 2);
    assert("--log"@.len() == 5);
    assert("--mirror"@.len() == 8);
    assert("--fps"@.len() == 5);
    assert("-h"@.len() == 2);
    assert("--help"@.len() == 6);
    assert("--camera"@[2] == 'c' && "--mirror"@[2] == 'm');
    assert("--path"@[2] == 'p' && "--help"@[2] == 'h');
    assert("--log"@[2] == 'l' && "--fps"@[2] == 'f');
    assert("-v"@[1] == 'v' && "-h"@[1] == 'h');
}

impl ArgParser {
    /// A parser with the defaults: camera `0`, the default ring path, every
    /// flag off.
    pub fn new() -> (p: ArgParser)
        ensures
            p.camera@ == "0"@,
            p.path@ == CAM_RING_DEFAULT@,
            !p.preview && !p.log && !p.mirror,
            p.pending == PendingValue::Nothing,
    {
        ArgParser {
            camera: "0".to_owned(),
            path: CAM_RING_DEFAULT.to_owned(),
            preview: false,
            log: false,
            mirror: false,
            pending: PendingValue::Nothing,
        }
    }

    /// Takes one argument: the value of the flag before it, or a flag.
    pub fn feed(&mut self, arg: String) -> (ev: ArgEvent)
        ensures
            old(self).pending == PendingValue::Camera ==> final(self).camera@ == arg@
                && final(self).path@ == old(self).path@ && same_flags(&*final(self), &*old(self))
                && final(self).pending == PendingValue::Nothing && ev is Continue,
            old(self).pending == PendingValue::Path ==> final(self).path@ == arg@
                && final(self).camera@ == old(self).camera@ && same_flags(&*final(self), &*old(self))
                && final(self).pending == PendingValue::Nothing && ev is Continue,
            old(self).pending == PendingValue::Fps ==> (ev matches ArgEvent::ParseFps(v) && v@
                == arg@) && final(self).camera@ == old(self).camera@ && final(self).path@ == old(
                self,
            ).path@ && same_flags(&*final(self), &*old(self)) && final(self).pending
                == PendingValue::Nothing,
            old(self).pending == PendingValue::Nothing ==> {
                &&& final(self).camera@ == old(self).camera@
                &&& final(self).path@ == old(self).path@
                &&& arg@ == "--camera"@ ==> final(self).pending == PendingValue::Camera
                    && same_flags(&*final(self), &*old(self)) && ev is Continue
                &&& arg@ == "--path"@ ==> final(self).pending == PendingValue::Path && same_flags(
                    &*final(self),
                    &*old(self),
                ) && ev is Continue
                &&& arg@ == "--fps"@ ==> final(self).pending == PendingValue::Fps && same_flags(
                    &*final(self),
                    &*old(self),
                ) && ev is Continue
                &&& arg@ == "--preview"@ ==> final(self).preview && final(self).log == old(
                    self,
                ).log && final(self).mirror == old(self).mirror && final(self).pending
                    == PendingValue::Nothing && ev is Continue
                &&& (arg@ == "-v"@ || arg@ == "--log"@) ==> final(self).log && final(self).preview
                    == old(self).preview && final(self).mirror == old(self).mirror
                    && final(self).pending == PendingValue::Nothing && ev is Continue
                &&& arg@ == "--mirror"@ ==> final(self).mirror && final(self).preview == old(
                    self,
                ).preview && final(self).log == old(self).log && final(self).pending
                    == PendingValue::Nothing && ev is Continue
                &&& (arg@ == "-h"@ || arg@ == "--help"@) ==> same_flags(
                    &*final(self),
                    &*old(self),
                ) && final(self).pending == PendingValue::Nothing && ev is ShowHelp
                &&& !(arg@ == "--camera"@ || arg@ == "--path"@ || arg@ == "--fps"@ || arg@
                    == "--preview"@ || arg@ == "-v"@ || arg@ == "--log"@ || arg@ == "--mirror"@
                    || arg@ == "-h"@ || arg@ == "--help"@) ==> same_flags(
                    &*final(self),
                    &*old(self),
                ) && final(self).pending == PendingValue::Nothing && (ev matches ArgEvent::Fail(
                    m,
                ) && m@ == unknown_argument_text(arg@))
            },
    {
        proof {
            lemma_flag_names_distinct();
        }
        match self.pending {
            PendingValue::Camera => {
                self.camera = arg;
                self.pending = PendingValue::Nothing;
                return ArgEvent::Continue;
            },
            PendingValue::Path => {
                self.path = arg;
                self.pending = PendingValue::Nothing;
                return ArgEvent::Continue;
            },
            PendingValue::Fps => {
                self.pending = PendingValue::Nothing;
                return ArgEvent::ParseFps(arg);
            },
            PendingValue::Nothing => {},
        }
        if is_arg(&arg, "--camera") {
            self.pending = PendingValue::Camera;
            ArgEvent::Continue
        } else if is_arg(&arg, "--path") {
            self.pending = PendingValue::Path;
            ArgEvent::Continue
        } else if is_arg(&arg, "--preview") {
            self.preview = true;
            ArgEvent::Continue
        } else if is_arg(&arg, "-v") || is_arg(&arg, "--log") {
            self.log = true;
            ArgEvent::Continue
        } else if is_arg(&arg, "--mirror") {
            self.mirror = true;
            ArgEvent::Continue
        } else if is_arg(&arg, "--fps") {
            self.pending = PendingValue::Fps;
            ArgEvent::Continue
        } else if is_arg(&arg, "-h") || is_arg(&arg, "--help") {
            ArgEvent::ShowHelp
        } else {
            let mut m = "unknown argument ".to_owned();
            let q = debug_quote(arg.as_str());
            m.append(q.as_str());
            m.append("\n");
            let u = usage();
            m.append(u.as_str());
            ArgEvent::Fail(m)
        }
    }

    /// Ends the arguments: a flag still waiting for its value is an error.
    pub fn finish(self) -> (r: Result<CliArgs, String>)
        ensures
            self.pending == PendingValue::Nothing ==> (r matches Ok(a) && a.camera@
                == self.camera@ && a.path@ == self.path@ && a.preview == self.preview && a.log
                == self.log && a.mirror == self.mirror),
            self.pending == PendingValue::Camera ==> (r matches Err(m) && m@
                == "--camera needs a value"@),
            self.pending == PendingValue::Path ==> (r matches Err(m) && m@
                == "--path needs a value"@),
            self.pending == PendingValue::Fps ==> (r matches Err(m) && m@
                == "--fps needs a value"@),
    {
        match self.pending {
            PendingValue::Camera => Err("--camera needs a value".to_owned()),
            PendingValue::Path => Err("--path needs a value".to_owned()),
            PendingValue::Fps => Err("--fps needs a value".to_owned()),
            PendingValue::Nothing => Ok(
                CliArgs {
                    camera: self.camera,
                    path: self.path,
                    preview: self.preview,
                    log: self.log,
                    mirror: self.mirror,
                },
            ),
        }
    }
}

} // verus!
