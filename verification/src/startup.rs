//! What the desktop program decides while it starts: how it logs, where a portable copy keeps its data, what
//! the web view may do, which decoders the machine has, and how a Raspberry Pi gets its first picture right.

use crate::text;
use crate::text::{chars_of, has_text, push_text, to_decimal};
use vstd::prelude::*;

verus! {

/// An operating system.
#[derive(Clone, Copy, PartialEq, Eq, Debug, Structural)]
pub enum Os {
    /// Linux.
    Linux,
    /// Windows.
    Windows,
    /// macOS, or any other.
    Other,
}

/// Whether this is a portable copy. `marker` says whether the marker file lies beside the program, and is
/// nothing where it is not known where the program lies.
pub fn is_portable(marker: Option<bool>) -> (r: bool)
    ensures
        r == (marker == Some(true)),
{
    match marker {
        Some(found) => found,
        None => false,
    }
}

/// The variables that make the web view keep its data in a directory.
pub open spec fn data_variables(os: Os) -> Seq<Seq<char>> {
    match os {
        Os::Windows => seq!["WEBVIEW2_USER_DATA_FOLDER"@],
        Os::Linux => seq!["XDG_DATA_HOME"@, "XDG_CONFIG_HOME"@],
        Os::Other => Seq::empty(),
    }
}

/// The directory beside the program in which a portable copy keeps its data.
pub const DATA_DIRECTORY: &'static str = "data";

/// Where a portable copy keeps its data, and how the web view is told.
#[derive(Debug)]
pub struct PortableData {
    /// The directory, which is to be made.
    pub directory: String,
    /// The variables that are to be set to it.
    pub variables: Vec<String>,
}

/// A path ends in a separator.
pub open spec fn ends_in_separator(path: Seq<char>, os: Os) -> bool {
    path.len() > 0 && (path.last() == '/' || os == Os::Windows && path.last() == '\\')
}

/// The path of something in a directory.
pub open spec fn path_in(directory: Seq<char>, name: Seq<char>, os: Os) -> Seq<char> {
    if directory.len() == 0 || ends_in_separator(directory, os) {
        directory + name
    } else if os == Os::Windows {
        directory + "\\"@ + name
    } else {
        directory + "/"@ + name
    }
}

fn join_path(directory: &str, name: &str, os: Os) -> (r: String)
    ensures
        r@ == path_in(directory@, name@, os),
{
    let chars: Vec<char> = chars_of(directory);
    let n: usize = chars.len();
    let mut path: String = directory.to_string();
    let joined: bool = n == 0 || chars[n - 1] == '/' || os == Os::Windows && chars[n - 1] == '\\';
    if !joined {
        if os == Os::Windows {
            path.append("\\");
        } else {
            path.append("/");
        }
    }
    path.append(name);
    path
}

/// Decides what a portable copy does with its data. `program_dir` is where the program lies, where that is
/// known, and `marker` says whether the marker file lies there. Nothing is done where this is no portable
/// copy. Otherwise the directory `data` beside the program is made, and variables are set to it.
pub fn setup_portable_mode(program_dir: Option<&str>, marker: bool, os: Os) -> (r: Option<
    PortableData,
>)
    ensures
        r is Some <==> program_dir is Some && marker,
        r is Some ==> r->0.directory@ == path_in(program_dir->0@, "data"@, os),
        r is Some ==> text::strings(r->0.variables@) == data_variables(os),
{
    let directory: String = match program_dir {
        Some(dir) => {
            if !is_portable(Some(marker)) {
                return None;
            }
            join_path(dir, DATA_DIRECTORY, os)
        },
        None => {
            return None;
        },
    };
    let mut variables: Vec<String> = Vec::new();
    match os {
        Os::Windows => push_text(&mut variables, "WEBVIEW2_USER_DATA_FOLDER"),
        Os::Linux => {
            push_text(&mut variables, "XDG_DATA_HOME");
            push_text(&mut variables, "XDG_CONFIG_HOME");
        },
        Os::Other => {},
    }
    proof {
        assert(text::strings(variables@) =~= data_variables(os));
    }
    Some(PortableData { directory, variables })
}

/// From which level on the program logs.
#[derive(Clone, Copy, PartialEq, Eq, Debug, Structural)]
pub enum LogLevel {
    /// Everything that helps to find an error.
    Debug,
    /// Warnings and errors.
    Warn,
}

/// How the program runs.
#[derive(Clone, Copy, PartialEq, Eq, Debug, Structural)]
pub struct Startup {
    /// Whether the debug monitor is switched on.
    pub debug_mode: bool,
    /// From which level on the program logs.
    pub log_level: LogLevel,
    /// Whether the size and the place of the window are kept. A portable copy cannot keep them beside
    /// itself on every system, so it does not keep them at all.
    pub keep_window_state: bool,
    /// Whether it is kept with them if the window has decorations. It never is: the title bar is the
    /// program's own, and decorations that were kept would bring back the system's.
    pub keep_decorations: bool,
}

/// Decides how the program runs. `debug_flag` says whether it was started for debugging.
pub fn run(debug_flag: bool, portable: bool) -> (r: Startup)
    ensures
        r == (Startup {
            debug_mode: debug_flag,
            log_level: if debug_flag {
                LogLevel::Debug
            } else {
                LogLevel::Warn
            },
            keep_window_state: !portable,
            keep_decorations: false,
        }),
{
    let log_level: LogLevel = if debug_flag {
        LogLevel::Debug
    } else {
        LogLevel::Warn
    };
    Startup {
        debug_mode: debug_flag,
        log_level,
        keep_window_state: !portable,
        keep_decorations: false,
    }
}

/// What is done when the program ends.
#[derive(Clone, Copy, PartialEq, Eq, Debug, Structural)]
pub enum ExitStep {
    /// Stop the stream engine.
    StopEngine,
    /// Stop the MJPEG server.
    StopServer,
}

/// What is done on an event of the program: on its exit the helpers are stopped, which would outlive it, and
/// on any other event nothing.
pub open spec fn exit_plan(is_exit: bool) -> Seq<ExitStep> {
    if is_exit {
        seq![ExitStep::StopEngine, ExitStep::StopServer]
    } else {
        Seq::empty()
    }
}

/// Decides what is done on an event of the program, in this order.
pub fn exit_steps(is_exit: bool) -> (r: Vec<ExitStep>)
    ensures
        r@ == exit_plan(is_exit),
{
    let mut steps: Vec<ExitStep> = Vec::new();
    if is_exit {
        steps.push(ExitStep::StopEngine);
        steps.push(ExitStep::StopServer);
    }
    steps
}

/// What the web view asks to be allowed.
#[derive(Clone, Copy, PartialEq, Eq, Debug, Structural)]
pub enum Permission {
    /// To know where this machine is.
    Geolocation,
    /// To use the camera or the microphone.
    UserMedia,
    /// Anything else.
    Other,
}

/// Whether the program allows what the web view asks for. Anything that it does not allow is left to the web
/// view's own default.
pub fn allows(permission: Permission) -> (r: bool)
    ensures
        r == (permission != Permission::Other),
{
    match permission {
        Permission::Geolocation => true,
        Permission::UserMedia => true,
        Permission::Other => false,
    }
}

/// The name of a truth value.
pub open spec fn shown_bool(value: bool) -> Seq<char> {
    if value {
        "true"@
    } else {
        "false"@
    }
}

fn show_bool(value: bool) -> (r: &'static str)
    ensures
        r@ == shown_bool(value),
{
    if value {
        "true"
    } else {
        "false"
    }
}

/// What is logged of WebRTC in a web view of this version. `read_back` is how the switch reads after it was
/// set, or nothing where there is no switch.
pub open spec fn webrtc_notice_text(
    major: u32,
    minor: u32,
    micro: u32,
    read_back: Option<bool>,
) -> Seq<char> {
    "[webkit] WebKitGTK "@ + text::decimal(major as nat) + "."@ + text::decimal(minor as nat) + "."@
        + text::decimal(micro as nat) + match read_back {
        Some(now) => " — enable-webrtc set, reads back as "@ + shown_bool(now),
        None =>
            " — no 'enable-webrtc' property (needs ≥ 2.38); RTSP will fall back to MJPEG"@,
    }
}

/// What is logged of WebRTC in a web view of this version.
pub fn webrtc_notice(major: u32, minor: u32, micro: u32, read_back: Option<bool>) -> (r: String)
    ensures
        r@ == webrtc_notice_text(major, minor, micro, read_back),
{
    let mut notice: String = "[webkit] WebKitGTK ".to_string();
    notice.append(to_decimal(major as u64).as_str());
    notice.append(".");
    notice.append(to_decimal(minor as u64).as_str());
    notice.append(".");
    notice.append(to_decimal(micro as u64).as_str());
    match read_back {
        Some(now) => {
            notice.append(" — enable-webrtc set, reads back as ");
            notice.append(show_bool(now));
        },
        None => {
            notice.append(
                " — no 'enable-webrtc' property (needs ≥ 2.38); RTSP will fall back to MJPEG",
            );
        },
    }
    proof {
        let version = "[webkit] WebKitGTK "@ + text::decimal(major as nat) + "."@ + text::decimal(
            minor as nat,
        ) + "."@ + text::decimal(micro as nat);
        match read_back {
            Some(now) => {
                assert(notice@ =~= version + (" — enable-webrtc set, reads back as "@
                    + shown_bool(now)));
            },
            None => {},
        }
    }
    notice
}

/// A decoder that is looked for.
#[derive(Clone, Copy, PartialEq, Eq, Debug)]
pub struct Candidate {
    /// The name that it is reported under.
    pub name: &'static str,
    /// What is looked for.
    pub sought: &'static str,
}

/// The names and what is looked for.
pub open spec fn candidates_view(list: Seq<Candidate>) -> Seq<(Seq<char>, Seq<char>)> {
    list.map_values(|c: Candidate| (c.name@, c.sought@))
}

/// The names.
pub open spec fn candidate_names(list: Seq<Candidate>) -> Seq<Seq<char>> {
    list.map_values(|c: Candidate| c.name@)
}

/// Those of the texts that were found, in their order.
pub open spec fn those_found(list: Seq<Seq<char>>, found: Seq<bool>) -> Seq<Seq<char>>
    decreases list.len(),
{
    if list.len() == 0 {
        Seq::empty()
    } else {
        let before = those_found(list.drop_last(), found.drop_last());
        if found.last() {
            before.push(list.last())
        } else {
            before
        }
    }
}

/// The texts in one, with a comma between them.
pub open spec fn joined(list: Seq<Seq<char>>) -> Seq<char>
    decreases list.len(),
{
    if list.len() == 0 {
        Seq::empty()
    } else if list.len() == 1 {
        list[0]
    } else {
        joined(list.drop_last()) + ", "@ + list.last()
    }
}

/// The GStreamer elements that decode H.264, in software and in hardware.
pub fn decoder_elements() -> (r: Vec<Candidate>)
    ensures
        candidates_view(r@) == seq![
            ("avdec_h264"@, "avdec_h264"@),
            ("openh264dec"@, "openh264dec"@),
            ("v4l2h264dec"@, "v4l2h264dec"@),
            ("vah264dec"@, "vah264dec"@),
            ("vaapih264dec"@, "vaapih264dec"@),
        ],
{
    let mut list: Vec<Candidate> = Vec::new();
    list.push(Candidate { name: "avdec_h264", sought: "avdec_h264" });
    list.push(Candidate { name: "openh264dec", sought: "openh264dec" });
    list.push(Candidate { name: "v4l2h264dec", sought: "v4l2h264dec" });
    list.push(Candidate { name: "vah264dec", sought: "vah264dec" });
    list.push(Candidate { name: "vaapih264dec", sought: "vaapih264dec" });
    list
}

/// The GStreamer plugins that decode H.264, and their files.
pub fn decoder_plugins() -> (r: Vec<Candidate>)
    ensures
        candidates_view(r@) == seq![
            ("libav"@, "libgstlibav.so"@),
            ("openh264"@, "libgstopenh264.so"@),
            ("va"@, "libgstva.so"@),
            ("vaapi"@, "libgstvaapi.so"@),
            ("v4l2"@, "libgstvideo4linux2.so"@),
        ],
{
    let mut list: Vec<Candidate> = Vec::new();
    list.push(Candidate { name: "libav", sought: "libgstlibav.so" });
    list.push(Candidate { name: "openh264", sought: "libgstopenh264.so" });
    list.push(Candidate { name: "va", sought: "libgstva.so" });
    list.push(Candidate { name: "vaapi", sought: "libgstvaapi.so" });
    list.push(Candidate { name: "v4l2", sought: "libgstvideo4linux2.so" });
    list
}

/// The file of the plugin for WebRTC.
pub const WEBRTC_PLUGIN: &'static str = "libgstwebrtc.so";

/// The element for WebRTC.
pub const WEBRTC_ELEMENT: &'static str = "webrtcbin";

/// The variables that name directories of GStreamer plugins. The last two are what counts inside an AppImage.
pub open spec fn plugin_variables() -> Seq<Seq<char>> {
    seq![
        "GST_PLUGIN_PATH"@,
        "GST_PLUGIN_PATH_1_0"@,
        "GST_PLUGIN_SYSTEM_PATH"@,
        "GST_PLUGIN_SYSTEM_PATH_1_0"@,
    ]
}

/// The variables that name directories of GStreamer plugins.
pub fn plugin_path_variables() -> (r: Vec<String>)
    ensures
        text::strings(r@) == plugin_variables(),
{
    let mut list: Vec<String> = Vec::new();
    push_text(&mut list, "GST_PLUGIN_PATH");
    push_text(&mut list, "GST_PLUGIN_PATH_1_0");
    push_text(&mut list, "GST_PLUGIN_SYSTEM_PATH");
    push_text(&mut list, "GST_PLUGIN_SYSTEM_PATH_1_0");
    proof {
        assert(text::strings(list@) =~= plugin_variables());
    }
    list
}

/// Where systems keep GStreamer plugins.
pub open spec fn system_plugin_paths() -> Seq<Seq<char>> {
    seq![
        "/usr/lib/aarch64-linux-gnu/gstreamer-1.0"@,
        "/usr/lib/x86_64-linux-gnu/gstreamer-1.0"@,
        "/usr/lib/arm-linux-gnueabihf/gstreamer-1.0"@,
        "/usr/lib64/gstreamer-1.0"@,
        "/usr/lib/gstreamer-1.0"@,
        "/usr/local/lib/gstreamer-1.0"@,
    ]
}

/// Where systems keep GStreamer plugins.
pub fn system_plugin_dirs() -> (r: Vec<String>)
    ensures
        text::strings(r@) == system_plugin_paths(),
{
    let mut list: Vec<String> = Vec::new();
    push_text(&mut list, "/usr/lib/aarch64-linux-gnu/gstreamer-1.0");
    push_text(&mut list, "/usr/lib/x86_64-linux-gnu/gstreamer-1.0");
    push_text(&mut list, "/usr/lib/arm-linux-gnueabihf/gstreamer-1.0");
    push_text(&mut list, "/usr/lib64/gstreamer-1.0");
    push_text(&mut list, "/usr/lib/gstreamer-1.0");
    push_text(&mut list, "/usr/local/lib/gstreamer-1.0");
    proof {
        assert(text::strings(list@) =~= system_plugin_paths());
    }
    list
}

/// The candidates that were found.
pub fn found_candidates(list: &Vec<Candidate>, found: &Vec<bool>) -> (r: Vec<String>)
    requires
        list@.len() == found@.len(),
    ensures
        text::strings(r@) == those_found(candidate_names(list@), found@),
{
    let ghost all = candidate_names(list@);
    let mut names: Vec<String> = Vec::new();
    let mut i: usize = 0;
    while i < list.len()
        invariant
            i <= list@.len(),
            list@.len() == found@.len(),
            all == candidate_names(list@),
            text::strings(names@) == those_found(all.take(i as int), found@.take(i as int)),
        decreases list@.len() - i,
    {
        proof {
            assert(all.take(i + 1).drop_last() =~= all.take(i as int));
            assert(found@.take(i + 1).drop_last() =~= found@.take(i as int));
            assert(all.take(i + 1).last() == list@[i as int].name@);
        }
        if found[i] {
            push_text(&mut names, list[i].name);
        }
        i += 1;
    }
    proof {
        assert(all.take(i as int) =~= all);
        assert(found@.take(i as int) =~= found@);
    }
    names
}

/// The texts in one, with a comma between them.
pub fn join(list: &Vec<String>) -> (r: String)
    ensures
        r@ == joined(text::strings(list@)),
{
    let ghost all = text::strings(list@);
    let mut r: String = String::new();
    let mut i: usize = 0;
    proof {
        assert(all.take(0) =~= Seq::empty());
    }
    while i < list.len()
        invariant
            i <= list@.len(),
            all == text::strings(list@),
            r@ == joined(all.take(i as int)),
        decreases list@.len() - i,
    {
        proof {
            assert(all.take(i + 1).drop_last() =~= all.take(i as int));
            assert(all.take(i + 1).last() == list@[i as int]@);
        }
        if i > 0 {
            r.append(", ");
        } else {
            proof {
                assert(r@ =~= Seq::empty());
                assert(r@ + list@[0]@ =~= list@[0]@);
            }
        }
        r.append(list[i].as_str());
        i += 1;
    }
    proof {
        assert(all.take(i as int) =~= all);
    }
    r
}

/// What is logged of what `gst-inspect-1.0` says of the machine's GStreamer.
pub open spec fn elements_notice(webrtc: bool, decoders: Seq<Seq<char>>) -> Seq<char> {
    "[gstreamer] webrtcbin="@ + shown_bool(webrtc) + " · h264 decoders=["@ + joined(decoders)
        + "] — WebKitGTK needs webrtcbin for RTCPeerConnection (gstreamer1.0-plugins-bad) and an H.264 decoder to play video (gstreamer1.0-libav)"@
}

/// What is logged of the plugin files where there is no `gst-inspect-1.0`.
pub open spec fn files_notice(webrtc: bool, decoders: Seq<Seq<char>>) -> Seq<char> {
    "[gstreamer] gst-inspect-1.0 not found (gstreamer1.0-tools); by plugin file: webrtc="@
        + shown_bool(webrtc) + " · h264 plugins=["@ + joined(decoders)
        + "] — WebKitGTK needs the webrtc plugin for RTCPeerConnection (gstreamer1.0-plugins-bad) and an H.264 decoder (gstreamer1.0-libav)"@
}

/// What the machine's GStreamer has. `found` says of each decoder whether it was found.
#[derive(Debug)]
pub enum Support {
    /// By what `gst-inspect-1.0` says of the elements.
    Elements {
        /// Whether there is the element for WebRTC.
        webrtc: bool,
        /// Whether there is each of the decoder elements.
        found: Vec<bool>,
    },
    /// By the plugin files, where there is no `gst-inspect-1.0`.
    Files {
        /// Whether there is the plugin for WebRTC.
        webrtc: bool,
        /// Whether there is each of the decoder plugins.
        found: Vec<bool>,
    },
}

/// What says which decoders the machine's GStreamer has.
#[derive(Clone, Copy, PartialEq, Eq, Debug, Structural)]
pub enum Evidence {
    /// Ask `gst-inspect-1.0` for the elements.
    AskForElements,
    /// Look for the plugin files, which is what GStreamer would load.
    LookForFiles,
}

/// Decides what to go by. `inspects` says whether `gst-inspect-1.0 --version` succeeded: it ships separately,
/// and is missing on the very systems where the answer matters most.
pub fn evidence(inspects: bool) -> (r: Evidence)
    ensures
        r == (if inspects {
            Evidence::AskForElements
        } else {
            Evidence::LookForFiles
        }),
{
    if inspects {
        Evidence::AskForElements
    } else {
        Evidence::LookForFiles
    }
}

/// The names of the decoder elements, in their order.
pub open spec fn element_names() -> Seq<Seq<char>> {
    seq!["avdec_h264"@, "openh264dec"@, "v4l2h264dec"@, "vah264dec"@, "vaapih264dec"@]
}

/// The names of the decoder plugins, in their order.
pub open spec fn plugin_names() -> Seq<Seq<char>> {
    seq!["libav"@, "openh264"@, "va"@, "vaapi"@, "v4l2"@]
}

/// Decides what is logged of the machine's GStreamer.
pub fn probe_gstreamer_support(support: &Support) -> (r: String)
    requires
        match *support {
            Support::Elements { found, .. } => found@.len() == 5,
            Support::Files { found, .. } => found@.len() == 5,
        },
    ensures
        r@ == match *support {
            Support::Elements { webrtc, found } => elements_notice(
                webrtc,
                those_found(element_names(), found@),
            ),
            Support::Files { webrtc, found } => files_notice(
                webrtc,
                those_found(plugin_names(), found@),
            ),
        },
{
    match support {
        Support::Elements { webrtc, found } => {
            let list: Vec<Candidate> = decoder_elements();
            proof {
                assert(list@.len() == candidates_view(list@).len());
                assert forall|i: int| 0 <= i < 5 implies #[trigger] candidate_names(list@)[i]
                    == element_names()[i] by {
                    assert(candidates_view(list@)[i].0 == candidate_names(list@)[i]);
                }
                assert(candidate_names(list@) =~= element_names());
            }
            let names: Vec<String> = found_candidates(&list, found);
            let mut notice: String = "[gstreamer] webrtcbin=".to_string();
            notice.append(show_bool(*webrtc));
            notice.append(" · h264 decoders=[");
            notice.append(join(&names).as_str());
            notice.append(
                "] — WebKitGTK needs webrtcbin for RTCPeerConnection (gstreamer1.0-plugins-bad) and an H.264 decoder to play video (gstreamer1.0-libav)",
            );
            notice
        },
        Support::Files { webrtc, found } => {
            let list: Vec<Candidate> = decoder_plugins();
            proof {
                assert(list@.len() == candidates_view(list@).len());
                assert forall|i: int| 0 <= i < 5 implies #[trigger] candidate_names(list@)[i]
                    == plugin_names()[i] by {
                    assert(candidates_view(list@)[i].0 == candidate_names(list@)[i]);
                }
                assert(candidate_names(list@) =~= plugin_names());
            }
            let names: Vec<String> = found_candidates(&list, found);
            let mut notice: String =
                "[gstreamer] gst-inspect-1.0 not found (gstreamer1.0-tools); by plugin file: webrtc=".to_string();
            notice.append(show_bool(*webrtc));
            notice.append(" · h264 plugins=[");
            notice.append(join(&names).as_str());
            notice.append(
                "] — WebKitGTK needs the webrtc plugin for RTCPeerConnection (gstreamer1.0-plugins-bad) and an H.264 decoder (gstreamer1.0-libav)",
            );
            notice
        },
    }
}

/// How long to wait after a page has loaded before its first picture is there, in milliseconds.
pub const NUDGE_DELAY_MS: u64 = 250;

/// How long to wait before a change of the window is undone, in milliseconds, so that the compositor acts on
/// the change.
pub const NUDGE_SETTLE_MS: u64 = 120;

/// A window, as far as a nudge changes it.
#[derive(Clone, Copy, PartialEq, Eq, Debug)]
pub struct Window {
    /// Whether it fills the screen.
    pub fullscreen: bool,
    /// Whether it is maximized.
    pub maximized: bool,
    /// Its width and its height, where they are known.
    pub size: Option<(u32, u32)>,
}

/// A change of a window.
#[derive(Clone, Copy, PartialEq, Eq, Debug, Structural)]
pub enum Change {
    /// Fill the screen, or no longer fill it.
    SetFullscreen(bool),
    /// Maximize it, or no longer maximize it.
    SetMaximized(bool),
    /// Give it this width and this height.
    SetSize(u32, u32),
}

/// A change of a window, and what undoes it.
#[derive(Clone, Copy, PartialEq, Eq, Debug, Structural)]
pub struct Nudge {
    /// The change.
    pub first: Change,
    /// What undoes it.
    pub undo: Change,
}

/// A window after a change.
pub open spec fn changed(window: Window, change: Change) -> Window {
    match change {
        Change::SetFullscreen(on) => Window { fullscreen: on, ..window },
        Change::SetMaximized(on) => Window { maximized: on, ..window },
        Change::SetSize(width, height) => Window { size: Some((width, height)), ..window },
    }
}

/// The window can be made one pixel higher where that is how it is nudged.
pub open spec fn can_grow(window: Window) -> bool {
    match window.size {
        Some((_, height)) => window.fullscreen || window.maximized || height < u32::MAX,
        None => true,
    }
}

/// The smallest change of a window in its state, and what undoes it. Resizing a window that fills the screen
/// or is maximized would fight the window manager.
pub open spec fn nudge_of(window: Window) -> Option<Nudge> {
    if window.fullscreen {
        Some(Nudge { first: Change::SetFullscreen(false), undo: Change::SetFullscreen(true) })
    } else if window.maximized {
        Some(Nudge { first: Change::SetMaximized(false), undo: Change::SetMaximized(true) })
    } else {
        match window.size {
            Some((width, height)) => Some(
                Nudge {
                    first: Change::SetSize(width, (height + 1) as u32),
                    undo: Change::SetSize(width, height),
                },
            ),
            None => None,
        }
    }
}

/// Finds the smallest change of a window, and what undoes it.
pub fn smallest_nudge(window: Window) -> (r: Option<Nudge>)
    requires
        can_grow(window),
    ensures
        r == nudge_of(window),
{
    if window.fullscreen {
        Some(Nudge { first: Change::SetFullscreen(false), undo: Change::SetFullscreen(true) })
    } else if window.maximized {
        Some(Nudge { first: Change::SetMaximized(false), undo: Change::SetMaximized(true) })
    } else {
        match window.size {
            Some((width, height)) => Some(
                Nudge {
                    first: Change::SetSize(width, height + 1),
                    undo: Change::SetSize(width, height),
                },
            ),
            None => None,
        }
    }
}

/// What is logged of a nudge.
pub open spec fn nudge_notice_text(nudge: Nudge) -> Seq<char> {
    "[gpu] Raspberry Pi framebuffer nudge: "@ + match nudge.undo {
        Change::SetFullscreen(_) => "fullscreen off/on"@,
        Change::SetMaximized(_) => "unmaximize/maximize"@,
        Change::SetSize(width, height) => text::decimal(width as nat) + "x"@ + text::decimal(
            height as nat,
        ) + " +1px"@,
    }
}

/// What is logged of a nudge.
pub fn nudge_notice(nudge: Nudge) -> (r: String)
    ensures
        r@ == nudge_notice_text(nudge),
{
    let mut notice: String = "[gpu] Raspberry Pi framebuffer nudge: ".to_string();
    let mut change: String = String::new();
    match nudge.undo {
        Change::SetFullscreen(_) => change.append("fullscreen off/on"),
        Change::SetMaximized(_) => change.append("unmaximize/maximize"),
        Change::SetSize(width, height) => {
            change.append(to_decimal(width as u64).as_str());
            change.append("x");
            change.append(to_decimal(height as u64).as_str());
            change.append(" +1px");
        },
    }
    notice.append(change.as_str());
    proof {
        match nudge.undo {
            Change::SetSize(width, height) => {
                assert(change@ =~= text::decimal(width as nat) + "x"@ + text::decimal(
                    height as nat,
                ) + " +1px"@);
            },
            Change::SetFullscreen(_) => {
                assert(change@ =~= "fullscreen off/on"@);
            },
            Change::SetMaximized(_) => {
                assert(change@ =~= "unmaximize/maximize"@);
            },
        }
    }
    notice
}

/// Whether the window has been nudged.
#[derive(Debug)]
pub struct Framebuffer {
    nudged: bool,
}

impl View for Framebuffer {
    type V = bool;

    closed spec fn view(&self) -> bool {
        self.nudged
    }
}

/// The machine is a Raspberry Pi, by what its device tree says of it.
pub open spec fn is_pi(model: Seq<char>) -> bool {
    text::contains_text(model, "Raspberry Pi"@)
}

impl Framebuffer {
    /// The window has not been nudged yet.
    pub fn new() -> (r: Framebuffer)
        ensures
            r@ == false,
    {
        Framebuffer { nudged: false }
    }

    /// Takes in that a page has loaded, on a machine of this model. Returns whether the window is to be
    /// nudged: on a Raspberry Pi, whose first framebuffer is broken, and once only.
    pub fn nudge_framebuffer_on_pi(&mut self, model: &str) -> (r: bool)
        ensures
            r == (is_pi(model@) && !old(self)@),
            final(self)@ == (old(self)@ || is_pi(model@)),
    {
        let model: Vec<char> = chars_of(model);
        let pi: Vec<char> = chars_of("Raspberry Pi");
        if !has_text(model.as_slice(), pi.as_slice()) {
            return false;
        }
        if self.nudged {
            return false;
        }
        self.nudged = true;
        true
    }
}

/// A nudge changes the window and leaves it as it was.
pub proof fn law_nudge_is_undone(window: Window)
    requires
        can_grow(window),
    ensures
        nudge_of(window) matches Some(nudge) ==> {
            &&& changed(window, nudge.first) != window
            &&& changed(changed(window, nudge.first), nudge.undo) == window
        },
{
}

/// The window is nudged before the `n`-th page, on a machine of this model.
pub open spec fn nudged_before(model: Seq<char>, n: nat) -> bool
    decreases n,
{
    n > 0 && (nudged_before(model, (n - 1) as nat) || is_pi(model))
}

/// Of all the pages that load, only the first gets a nudge, and on a Raspberry Pi alone.
pub proof fn law_one_nudge_at_most(model: Seq<char>, n: nat)
    ensures
        (is_pi(model) && !nudged_before(model, n)) <==> (is_pi(model) && n == 0),
    decreases n,
{
    if n > 0 {
        law_one_nudge_at_most(model, (n - 1) as nat);
    }
}

/// A path in a directory is the directory, one separator and the name: the separator is put between them
/// exactly where the directory has a name and does not end in one. A backslash separates on Windows alone.
pub proof fn law_paths_get_one_separator(directory: Seq<char>, end: char, name: Seq<char>, os: Os)
    ensures
        path_in(Seq::empty(), name, os) == name,
        end == '/' ==> path_in(directory.push(end), name, os) == directory.push(end) + name,
        end == '\\' && os == Os::Windows ==> path_in(directory.push(end), name, os)
            == directory.push(end) + name,
        end != '/' && os != Os::Windows ==> path_in(directory.push(end), name, os) == directory.push(
            end,
        ) + "/"@ + name,
        end != '/' && end != '\\' && os == Os::Windows ==> path_in(directory.push(end), name, os)
            == directory.push(end) + "\\"@ + name,
{
    assert(directory.push(end).last() == end);
    assert(Seq::<char>::empty() + name =~= name);
}

/// What is logged of WebRTC names the version, part by part, and how the switch reads.
pub proof fn law_webrtc_notice_names_the_version(major: u32, minor: u32, micro: u32)
    ensures
        ({
            let version = text::decimal(major as nat) + "."@ + text::decimal(minor as nat) + "."@
                + text::decimal(micro as nat);
            &&& webrtc_notice_text(major, minor, micro, Some(true)) == "[webkit] WebKitGTK "@ + version
                + " — enable-webrtc set, reads back as "@ + "true"@
            &&& webrtc_notice_text(major, minor, micro, Some(false)) == "[webkit] WebKitGTK "@ + version
                + " — enable-webrtc set, reads back as "@ + "false"@
            &&& webrtc_notice_text(major, minor, micro, None) == "[webkit] WebKitGTK "@ + version
                + " — no 'enable-webrtc' property (needs ≥ 2.38); RTSP will fall back to MJPEG"@
        }),
{
    let version = text::decimal(major as nat) + "."@ + text::decimal(minor as nat) + "."@
        + text::decimal(micro as nat);
    let head = "[webkit] WebKitGTK "@;
    let set = " — enable-webrtc set, reads back as "@;
    let unset = " — no 'enable-webrtc' property (needs ≥ 2.38); RTSP will fall back to MJPEG"@;
    assert(webrtc_notice_text(major, minor, micro, Some(true)) =~= head + version + set + "true"@);
    assert(webrtc_notice_text(major, minor, micro, Some(false)) =~= head + version + set + "false"@);
    assert(webrtc_notice_text(major, minor, micro, None) =~= head + version + unset);
}

/// What is found of a list is what is found of its beginning, then of its end: every text that was found is
/// there, in its place, and no other.
pub proof fn law_those_found_are_reported_in_order(
    list: Seq<Seq<char>>,
    found: Seq<bool>,
    next: Seq<char>,
)
    requires
        list.len() == found.len(),
    ensures
        those_found(Seq::empty(), Seq::empty()) == Seq::<Seq<char>>::empty(),
        those_found(list.push(next), found.push(true)) == those_found(list, found).push(next),
        those_found(list.push(next), found.push(false)) == those_found(list, found),
{
    assert(list.push(next).drop_last() =~= list);
    assert(found.push(true).drop_last() =~= found);
    assert(found.push(false).drop_last() =~= found);
}

/// Every text that was found is reported: all of them where all were found, and none where none was.
pub proof fn law_a_text_is_reported_where_it_was_found(list: Seq<Seq<char>>, found: Seq<bool>)
    requires
        list.len() == found.len(),
    ensures
        those_found(list, found).len() <= list.len(),
        (forall|i: int| 0 <= i < found.len() ==> #[trigger] found[i]) ==> those_found(list, found)
            == list,
        (forall|i: int| 0 <= i < found.len() ==> !#[trigger] found[i]) ==> those_found(list, found)
            == Seq::<Seq<char>>::empty(),
        forall|i: int|
            #![trigger found[i]]
            0 <= i < found.len() && found[i] ==> those_found(list, found).contains(list[i]),
    decreases list.len(),
{
    if list.len() > 0 {
        let n = list.len() - 1;
        let before = list.drop_last();
        let were = found.drop_last();
        law_a_text_is_reported_where_it_was_found(before, were);
        assert(forall|i: int| 0 <= i < n ==> were[i] == found[i]);
        assert(found[n] == found.last());
        let earlier = those_found(before, were);
        let all = those_found(list, found);
        if forall|i: int| 0 <= i < found.len() ==> #[trigger] found[i] {
            assert(before.push(list.last()) =~= list);
        }
        assert forall|i: int|
            #![trigger found[i]]
            0 <= i < found.len() && found[i] implies all.contains(list[i]) by {
            if i == n {
                assert(all == earlier.push(list.last()));
                assert(all[earlier.len() as int] == list[n]);
            } else {
                assert(were[i]);
                assert(earlier.contains(before[i]));
                let k = choose|k: int| 0 <= k < earlier.len() && earlier[k] == before[i];
                assert(all[k] == list[i]);
            }
        }
    }
}

/// Texts are joined with a comma and a space between each two of them, and nothing before the first or after
/// the last: to join two lists is to join each and put the comma between.
pub proof fn law_texts_are_joined_by_commas(a: Seq<Seq<char>>, b: Seq<Seq<char>>, t: Seq<char>)
    requires
        a.len() > 0,
        b.len() > 0,
    ensures
        joined(Seq::empty()) == Seq::<char>::empty(),
        joined(seq![t]) == t,
        joined(a + b) == joined(a) + ", "@ + joined(b),
    decreases b.len(),
{
    let all = a + b;
    assert(all.last() == b.last());
    if b.len() == 1 {
        assert(all.drop_last() =~= a);
        assert(joined(b) == b[0]);
    } else {
        assert(all.drop_last() =~= a + b.drop_last());
        law_texts_are_joined_by_commas(a, b.drop_last(), t);
        assert(joined(all) =~= joined(a) + ", "@ + joined(b));
    }
}

/// What is logged of the machine's GStreamer names what was found, whatever that is, between brackets.
pub proof fn law_notices_name_what_was_found(decoders: Seq<Seq<char>>)
    ensures
        elements_notice(true, decoders) == "[gstreamer] webrtcbin="@ + "true"@ + " · h264 decoders=["@
            + joined(decoders)
            + "] — WebKitGTK needs webrtcbin for RTCPeerConnection (gstreamer1.0-plugins-bad) and an H.264 decoder to play video (gstreamer1.0-libav)"@,
        elements_notice(false, decoders) == "[gstreamer] webrtcbin="@ + "false"@
            + " · h264 decoders=["@ + joined(decoders)
            + "] — WebKitGTK needs webrtcbin for RTCPeerConnection (gstreamer1.0-plugins-bad) and an H.264 decoder to play video (gstreamer1.0-libav)"@,
        files_notice(true, decoders)
            == "[gstreamer] gst-inspect-1.0 not found (gstreamer1.0-tools); by plugin file: webrtc="@
            + "true"@ + " · h264 plugins=["@ + joined(decoders)
            + "] — WebKitGTK needs the webrtc plugin for RTCPeerConnection (gstreamer1.0-plugins-bad) and an H.264 decoder (gstreamer1.0-libav)"@,
        files_notice(false, decoders)
            == "[gstreamer] gst-inspect-1.0 not found (gstreamer1.0-tools); by plugin file: webrtc="@
            + "false"@ + " · h264 plugins=["@ + joined(decoders)
            + "] — WebKitGTK needs the webrtc plugin for RTCPeerConnection (gstreamer1.0-plugins-bad) and an H.264 decoder (gstreamer1.0-libav)"@,
{
}

/// The names of candidates are theirs, one for one.
pub proof fn law_candidates_keep_their_names(list: Seq<Candidate>, i: int)
    requires
        0 <= i < list.len(),
    ensures
        candidate_names(list).len() == list.len(),
        candidate_names(list)[i] == list[i].name@,
        candidates_view(list).len() == list.len(),
        candidates_view(list)[i] == (list[i].name@, list[i].sought@),
{
}

/// A window that fills the screen leaves it for a moment, one that is maximized is restored for a moment, and
/// any other of a known size is higher by one pixel for a moment, with its width as it is. Without a known
/// size there is nothing to change.
pub proof fn law_nudge_is_the_smallest_change(window: Window, width: u32, height: u32)
    requires
        height < u32::MAX,
    ensures
        window.fullscreen ==> nudge_of(window) == Some(
            Nudge { first: Change::SetFullscreen(false), undo: Change::SetFullscreen(true) },
        ),
        !window.fullscreen && window.maximized ==> nudge_of(window) == Some(
            Nudge { first: Change::SetMaximized(false), undo: Change::SetMaximized(true) },
        ),
        !window.fullscreen && !window.maximized && window.size is None ==> nudge_of(window) is None,
        !window.fullscreen && !window.maximized && window.size == Some((width, height)) ==> {
            let nudge = nudge_of(window);
            &&& nudge is Some
            &&& nudge->0.undo == Change::SetSize(width, height)
            &&& nudge->0.first is SetSize
            &&& nudge->0.first->SetSize_0 == width
            &&& nudge->0.first->SetSize_1 == height + 1
        },
{
}

/// What is logged of a nudge names the size that the window has, or what is done to it.
pub proof fn law_nudge_notice_names_the_size(first: Change, width: u32, height: u32, on: bool)
    ensures
        nudge_notice_text(Nudge { first, undo: Change::SetSize(width, height) })
            == "[gpu] Raspberry Pi framebuffer nudge: "@ + text::decimal(width as nat) + "x"@
            + text::decimal(height as nat) + " +1px"@,
        nudge_notice_text(Nudge { first, undo: Change::SetFullscreen(on) })
            == "[gpu] Raspberry Pi framebuffer nudge: "@ + "fullscreen off/on"@,
        nudge_notice_text(Nudge { first, undo: Change::SetMaximized(on) })
            == "[gpu] Raspberry Pi framebuffer nudge: "@ + "unmaximize/maximize"@,
{
    assert(nudge_notice_text(Nudge { first, undo: Change::SetSize(width, height) })
        =~= "[gpu] Raspberry Pi framebuffer nudge: "@ + text::decimal(width as nat) + "x"@
        + text::decimal(height as nat) + " +1px"@);
}

/// A machine is a Raspberry Pi by its name, whatever stands before and behind it, and no model without that
/// name is one.
pub proof fn law_a_pi_is_known_by_its_name(before: Seq<char>, after: Seq<char>, model: Seq<char>)
    ensures
        is_pi(before + "Raspberry Pi"@ + after),
        is_pi(model) ==> exists|i: int|
            0 <= i && i + "Raspberry Pi"@.len() <= model.len() && #[trigger] model.subrange(
                i,
                i + "Raspberry Pi"@.len(),
            ) == "Raspberry Pi"@,
{
    let name = "Raspberry Pi"@;
    let all = before + name + after;
    let n = before.len() as int;
    assert(all.subrange(n, n + name.len()) =~= name);
}

/// Plugins are looked for where the variables of GStreamer say, those of the system among them, and in the
/// directories of every architecture; decoders are reported under their names.
pub proof fn law_plugins_are_looked_for_everywhere()
    ensures
        plugin_variables() == seq![
            "GST_PLUGIN_PATH"@,
            "GST_PLUGIN_PATH_1_0"@,
            "GST_PLUGIN_SYSTEM_PATH"@,
            "GST_PLUGIN_SYSTEM_PATH_1_0"@,
        ],
        system_plugin_paths() == seq![
            "/usr/lib/aarch64-linux-gnu/gstreamer-1.0"@,
            "/usr/lib/x86_64-linux-gnu/gstreamer-1.0"@,
            "/usr/lib/arm-linux-gnueabihf/gstreamer-1.0"@,
            "/usr/lib64/gstreamer-1.0"@,
            "/usr/lib/gstreamer-1.0"@,
            "/usr/local/lib/gstreamer-1.0"@,
        ],
        element_names() == seq![
            "avdec_h264"@,
            "openh264dec"@,
            "v4l2h264dec"@,
            "vah264dec"@,
            "vaapih264dec"@,
        ],
        plugin_names() == seq!["libav"@, "openh264"@, "va"@, "vaapi"@, "v4l2"@],
{
}

/// A portable copy tells the web view in the variables of its system, and both helpers are stopped exactly
/// when the program ends.
pub proof fn law_each_system_has_its_variables()
    ensures
        data_variables(Os::Windows) == seq!["WEBVIEW2_USER_DATA_FOLDER"@],
        data_variables(Os::Linux) == seq!["XDG_DATA_HOME"@, "XDG_CONFIG_HOME"@],
        data_variables(Os::Other).len() == 0,
        exit_plan(true) == seq![ExitStep::StopEngine, ExitStep::StopServer],
        exit_plan(false).len() == 0,
        shown_bool(true) == "true"@,
        shown_bool(false) == "false"@,
{
}

} // verus!
