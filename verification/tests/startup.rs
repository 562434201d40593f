use kite::startup::{
    allows, decoder_elements, decoder_plugins, evidence, exit_steps, found_candidates, is_portable,
    join, nudge_notice, plugin_path_variables, probe_gstreamer_support, run, setup_portable_mode,
    smallest_nudge, system_plugin_dirs, webrtc_notice, Change, Evidence, ExitStep, Framebuffer,
    LogLevel, Nudge, Os, Permission, Startup, Support, Window, DATA_DIRECTORY,
};
use kite::text::{chars_of, is_whitespace, parse_number, to_decimal, trim};

#[test]
fn a_marker_makes_a_copy_portable() {
    assert!(is_portable(Some(true)));
    assert!(!is_portable(Some(false)));
    assert!(!is_portable(None));
    assert!(setup_portable_mode(None, true, Os::Linux).is_none());
    assert!(setup_portable_mode(Some("/opt/kite"), false, Os::Linux).is_none());
    let data = |dir, os| setup_portable_mode(Some(dir), true, os).unwrap();
    let linux = data("/opt/kite", Os::Linux);
    assert_eq!(linux.directory, "/opt/kite/data");
    assert_eq!(linux.variables, vec!["XDG_DATA_HOME", "XDG_CONFIG_HOME"]);
    let windows = data(r"C:\kite", Os::Windows);
    assert_eq!(windows.directory, r"C:\kite\data");
    assert_eq!(windows.variables, vec!["WEBVIEW2_USER_DATA_FOLDER"]);
    assert!(data("/Applications", Os::Other).variables.is_empty());
}

#[test]
fn data_lies_beside_the_program() {
    let directory = |dir, os| setup_portable_mode(Some(dir), true, os).unwrap().directory;
    for dir in ["/", "/opt/kite/", "", "relative", r"/odd\"] {
        let expected = std::path::Path::new(dir).join(DATA_DIRECTORY);
        assert_eq!(directory(dir, Os::Linux), expected.to_string_lossy());
    }
    assert_eq!(directory(r"C:\", Os::Windows), r"C:\data");
}

#[test]
fn the_program_logs_more_for_debugging() {
    assert_eq!(
        run(true, false),
        Startup {
            debug_mode: true,
            log_level: LogLevel::Debug,
            keep_window_state: true,
            keep_decorations: false,
        }
    );
    assert_eq!(
        run(false, true),
        Startup {
            debug_mode: false,
            log_level: LogLevel::Warn,
            keep_window_state: false,
            keep_decorations: false,
        }
    );
}

#[test]
fn the_helpers_are_stopped_on_exit_alone() {
    assert_eq!(exit_steps(true), vec![ExitStep::StopEngine, ExitStep::StopServer]);
    assert!(exit_steps(false).is_empty());
}

#[test]
fn plugin_files_stand_in_for_a_missing_inspector() {
    assert_eq!(evidence(true), Evidence::AskForElements);
    assert_eq!(evidence(false), Evidence::LookForFiles);
}

#[test]
fn the_web_view_may_use_location_and_camera() {
    assert!(allows(Permission::Geolocation));
    assert!(allows(Permission::UserMedia));
    assert!(!allows(Permission::Other));
}

#[test]
fn the_web_view_is_reported() {
    assert_eq!(
        webrtc_notice(2, 52, 5, Some(true)),
        "[webkit] WebKitGTK 2.52.5 — enable-webrtc set, reads back as true"
    );
    assert_eq!(
        webrtc_notice(2, 36, 0, None),
        "[webkit] WebKitGTK 2.36.0 — no 'enable-webrtc' property (needs ≥ 2.38); RTSP will fall back to MJPEG"
    );
}

#[test]
fn decoders_are_reported() {
    assert_eq!(
        probe_gstreamer_support(&Support::Elements {
            webrtc: true,
            found: vec![true, false, true, false, false],
        }),
        "[gstreamer] webrtcbin=true · h264 decoders=[avdec_h264, v4l2h264dec] — WebKitGTK needs webrtcbin for RTCPeerConnection \
         (gstreamer1.0-plugins-bad) and an H.264 decoder to play video (gstreamer1.0-libav)"
    );
    assert_eq!(
        probe_gstreamer_support(&Support::Files {
            webrtc: false,
            found: vec![false, false, false, true, false],
        }),
        "[gstreamer] gst-inspect-1.0 not found (gstreamer1.0-tools); by plugin file: \
         webrtc=false · h264 plugins=[vaapi] — WebKitGTK needs the webrtc plugin for \
         RTCPeerConnection (gstreamer1.0-plugins-bad) and an H.264 decoder (gstreamer1.0-libav)"
    );
}

#[test]
fn decoders_are_looked_for() {
    let sought: Vec<&str> = decoder_elements().iter().map(|c| c.sought).collect();
    assert_eq!(
        sought,
        vec!["avdec_h264", "openh264dec", "v4l2h264dec", "vah264dec", "vaapih264dec"]
    );
    let files: Vec<&str> = decoder_plugins().iter().map(|c| c.sought).collect();
    assert_eq!(
        files,
        vec![
            "libgstlibav.so", "libgstopenh264.so", "libgstva.so", "libgstvaapi.so",
            "libgstvideo4linux2.so"
        ]
    );
    let found = found_candidates(&decoder_plugins(), &vec![true, true, false, false, true]);
    assert_eq!(join(&found), "libav, openh264, v4l2");
    assert_eq!(join(&Vec::new()), "");
    assert_eq!(plugin_path_variables().len(), 4);
    assert_eq!(system_plugin_dirs()[3], "/usr/lib64/gstreamer-1.0");
}

fn window(fullscreen: bool, maximized: bool, size: Option<(u32, u32)>) -> Window {
    Window { fullscreen, maximized, size }
}

#[test]
fn a_nudge_is_the_smallest_change_and_undone() {
    let size = Some((800, 480));
    assert_eq!(
        smallest_nudge(window(true, true, size)),
        Some(Nudge { first: Change::SetFullscreen(false), undo: Change::SetFullscreen(true) })
    );
    assert_eq!(
        smallest_nudge(window(false, true, size)),
        Some(Nudge { first: Change::SetMaximized(false), undo: Change::SetMaximized(true) })
    );
    assert_eq!(
        smallest_nudge(window(false, false, size)),
        Some(Nudge { first: Change::SetSize(800, 481), undo: Change::SetSize(800, 480) })
    );
    assert_eq!(smallest_nudge(window(false, false, None)), None);
}

#[test]
fn a_nudge_is_logged() {
    let notice = |w| nudge_notice(smallest_nudge(w).unwrap());
    let size = Some((800, 480));
    assert_eq!(
        notice(window(true, false, size)),
        "[gpu] Raspberry Pi framebuffer nudge: fullscreen off/on"
    );
    assert_eq!(
        notice(window(false, true, size)),
        "[gpu] Raspberry Pi framebuffer nudge: unmaximize/maximize"
    );
    assert_eq!(
        notice(window(false, false, size)),
        "[gpu] Raspberry Pi framebuffer nudge: 800x480 +1px"
    );
}

#[test]
fn a_pi_is_nudged_once() {
    let mut framebuffer = Framebuffer::new();
    assert!(!framebuffer.nudge_framebuffer_on_pi(""));
    assert!(!framebuffer.nudge_framebuffer_on_pi("Orange Pi 5"));
    assert!(framebuffer.nudge_framebuffer_on_pi("Raspberry Pi 5 Model B Rev 1.0\0"));
    assert!(!framebuffer.nudge_framebuffer_on_pi("Raspberry Pi 5 Model B Rev 1.0\0"));
}

#[test]
fn white_space_is_what_unicode_says() {
    for code in 0..=0x10ffff {
        if let Some(c) = char::from_u32(code) {
            assert_eq!(is_whitespace(c), c.is_whitespace());
        }
    }
}

#[test]
fn numbers_are_read_and_written() {
    let parse = |s: &str| parse_number(&chars_of(s));
    for s in ["0", "+7", "007", "18446744073709551615"] {
        assert_eq!(parse(s), s.parse().ok());
    }
    for s in ["", "+", "-1", "1 ", "18446744073709551616", "٣", "1_0"] {
        assert_eq!(parse(s), None);
        assert!(s.parse::<usize>().is_err());
    }
    for n in [0, 9, 10, 65535, u64::MAX] {
        assert_eq!(to_decimal(n), n.to_string());
        assert_eq!(parse(&to_decimal(n)), usize::try_from(n).ok());
    }
}

#[test]
fn text_is_trimmed() {
    for s in ["", " ", " a b ", "\u{a0}x\u{3000}", "x", "\u{200b}x"] {
        let chars = chars_of(s);
        let trimmed: String = trim(&chars).iter().collect();
        assert_eq!(trimmed, s.trim());
    }
}
