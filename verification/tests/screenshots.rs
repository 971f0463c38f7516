use connector::screenshot::unix::{
    backends, capture_directory_name, session_kind, Backend, Capture, Examined, SessionKind, Todo,
};
use connector::screenshot::windows::{captured, exit_message};
use connector::screenshot::{dimensions, image_mime_type, Screenshot, MAX_IMAGE_BYTES};

#[test]
fn reads_png_and_jpeg_dimensions() {
    let png = b"\x89PNG\r\n\x1a\n\0\0\0\rIHDR\0\0\x07\x80\0\0\x04\x38";
    let jpeg = b"\xff\xd8\xff\xe0\0\x04ab\xff\xc0\0\x08\x08\x04\x38\x07\x80\0\xff\xd9";
    assert_eq!(dimensions(png), Some((1920, 1080)));
    assert_eq!(dimensions(jpeg), Some((1920, 1080)));
    for n in 0..jpeg.len() - 2 {
        assert_eq!(dimensions(&jpeg[..n]), None);
    }
}

#[test]
fn chooses_desktop_native_wayland_backends_first() {
    assert_eq!(
        backends(SessionKind::Wayland, "KDE"),
        vec![Backend::Spectacle, Backend::Grim, Backend::GnomeScreenshot, Backend::Flameshot]
    );
    assert_eq!(
        backends(SessionKind::Wayland, "GNOME"),
        vec![Backend::GnomeScreenshot, Backend::Grim, Backend::Spectacle, Backend::Flameshot]
    );
}

#[test]
fn never_uses_x11_backends_for_wayland() {
    let backends = backends(SessionKind::Wayland, "unknown");
    assert!(!backends.contains(&Backend::Maim));
    assert!(!backends.contains(&Backend::Scrot));
    assert!(!backends.contains(&Backend::Import));
}

#[test]
fn wayland_takes_precedence_over_xwayland() {
    assert_eq!(session_kind(Some("wayland-1"), Some(":0")), Some(SessionKind::Wayland));
    assert_eq!(session_kind(None, Some(":0")), Some(SessionKind::X11));
    assert_eq!(session_kind(None, None), None);
}

#[test]
fn recognizes_supported_images_by_content() {
    assert_eq!(image_mime_type(b"\x89PNG\r\n\x1a\ncontentsIENDxxxx"), Some("image/png"));
    assert_eq!(image_mime_type(b"\xff\xd8\xffcontents\xff\xd9"), Some("image/jpeg"));
    assert_eq!(image_mime_type(b"\x89PNG\r\n\x1a\ntruncated"), None);
    assert_eq!(image_mime_type(b"\xff\xd8\xfftruncated"), None);
    assert_eq!(image_mime_type(b"GIF89a"), None);
}

fn start(desktop: &str) -> Capture {
    Capture::start(SessionKind::Wayland, desktop, "/tmp/shots".to_string())
}

#[test]
fn falls_back_to_the_next_available_backend() {
    let mut capture = start("unknown");
    let mut tried: Vec<String> = Vec::new();
    loop {
        match capture.poll(15_000_000_000) {
            Todo::Run { program, output, args, .. } => {
                assert!(output.starts_with("/tmp/shots/"));
                assert!(args.iter().any(|a| a.contains(&output)));
                capture.ran(program == "spectacle");
                tried.push(program);
            }
            Todo::Read { path } => {
                assert!(path.starts_with("/tmp/shots/"));
                capture.examined(Examined::Content(b"\x89PNG\r\n\x1a\ncontentsIENDxxxx".to_vec()));
            }
            Todo::Finish => break,
        }
    }
    let (screenshot, source) = capture.finish().unwrap();
    assert_eq!(source, None);
    assert_eq!(screenshot.backend, "spectacle");
    assert_eq!(screenshot.mime_type, "image/png");
    assert_eq!(tried, ["grim", "spectacle"]);
}

#[test]
fn a_capture_without_a_program_is_unavailable() {
    let mut capture = start("unknown");
    while let Todo::Run { .. } = capture.poll(15_000_000_000) {
        capture.ran(false);
    }
    assert!(capture.finish().is_err());
    let mut late = start("unknown");
    assert!(matches!(late.poll(0), Todo::Finish));
    assert!(late.finish().is_err());
}

#[test]
fn invalid_output_is_not_a_screenshot() {
    let mut capture = start("unknown");
    loop {
        match capture.poll(15_000_000_000) {
            Todo::Run { .. } => capture.ran(true),
            Todo::Read { .. } => capture.examined(Examined::Content(b"GIF89a".to_vec())),
            Todo::Finish => break,
        }
    }
    assert!(capture.finish().is_err());
}

#[test]
fn screenshots_know_their_size() {
    let mut png = b"\x89PNG\r\n\x1a\n\0\0\0\rIHDR\0\0\x07\x80\0\0\x04\x38".to_vec();
    png.extend_from_slice(b"IENDxxxx");
    let shot = Screenshot::new(png.clone(), "image/png", "grim", None).unwrap();
    assert_eq!((shot.width, shot.height), (1920, 1080));
    assert_eq!((shot.source_width, shot.source_height), (1920, 1080));
    let shot = Screenshot::new(png.clone(), "image/png", "grim", Some((3840, 2160))).unwrap();
    assert_eq!((shot.source_width, shot.source_height), (3840, 2160));
    assert!(Screenshot::new(vec![1, 2, 3], "image/png", "grim", None).is_err());
    assert!(captured(png).is_err());
    let jpeg = b"\xff\xd8\xffcontents\xff\xd9".to_vec();
    assert_eq!(captured(jpeg).unwrap().backend, "pwsh-system-drawing");
    assert!(captured(vec![0; MAX_IMAGE_BYTES as usize + 1]).is_err());
    assert!(captured(b"GIF89a".to_vec()).is_err());
    assert!(exit_message(3).contains('3'));
}

#[test]
fn programs_are_told_where_to_write() {
    assert_eq!(Backend::Grim.name(), "grim");
    assert!(Backend::Grim.arguments("/tmp/o.png").contains(&"/tmp/o.png".to_string()));
    assert!(Backend::Maim.output_name().contains('.'));
    let a = capture_directory_name();
    assert_ne!(a, capture_directory_name());
}

#[test]
fn later_bytes_leave_the_size() {
    let mut png = b"\x89PNG\r\n\x1a\n\0\0\0\rIHDR\0\0\x07\x80\0\0\x04\x38".to_vec();
    let mut jpeg = b"\xff\xd8\xff\xe0\0\x04ab\xff\xc0\0\x08\x08\x04\x38\x07\x80\0".to_vec();
    png.extend(b"anything");
    jpeg.extend(b"\xff\xc0\0\x08\x08\0\x01\0\x01\0");
    assert_eq!(dimensions(&png), Some((1920, 1080)));
    assert_eq!(dimensions(&jpeg), Some((1920, 1080)));
}

#[test]
fn only_reduced_images_keep_another_size() {
    let mut large = b"\x89PNG\r\n\x1a\n\0\0\0\rIHDR\0\0\x0f\0\0\0\x08\x70".to_vec();
    large.extend_from_slice(b"and much more");
    let found = || Examined::Large { length: MAX_IMAGE_BYTES + 1, header: large.clone() };
    let small = || Examined::Content(b"\xff\xd8\xffcontents\xff\xd9".to_vec());
    let run = |reduces: bool| {
        let mut capture = start("unknown");
        let mut first = true;
        loop {
            match capture.poll(15_000_000_000) {
                Todo::Run { program, .. } => {
                    capture.ran(reduces || !["magick", "convert"].contains(&program.as_str()))
                }
                Todo::Read { .. } if first => {
                    capture.examined(found());
                    first = false;
                }
                Todo::Read { .. } => capture.examined(small()),
                Todo::Finish => return capture.finish().unwrap(),
            }
        }
    };
    let (shot, source) = run(true);
    assert_eq!((shot.backend, source), ("grim", Some((3840, 2160))));
    let (shot, source) = run(false);
    assert_eq!((shot.backend, source), ("spectacle", None));
}
