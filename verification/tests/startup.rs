use prestream::cursor::CursorBlink;
use prestream::schedule::{parse_time_of_day, stream_starting_string, Args, ArgsError};
use prestream::texture::{
    upload_format, ImageBitDepth, ImageColorType, TexelFormat, TexelType, TextureError,
};
use prestream::GlError;

fn args_of(list: &[&str]) -> Vec<String> {
    list.iter().map(|s| s.to_string()).collect()
}

#[test]
fn start_time_parses_to_seconds_of_day() {
    assert_eq!(parse_time_of_day("12:34:56"), Some(12 * 3600 + 34 * 60 + 56));
    assert_eq!(parse_time_of_day("00:00:00"), Some(0));
    assert_eq!(parse_time_of_day("23:59:59"), Some(86399));
    // seconds are optional in the wall-clock format
    assert_eq!(parse_time_of_day("23:56"), Some(23 * 3600 + 56 * 60));
    assert_eq!(parse_time_of_day("25:00:00"), None);
    assert_eq!(parse_time_of_day("12:61:00"), None);
    assert_eq!(parse_time_of_day("noon"), None);
    assert_eq!(parse_time_of_day(""), None);
}

#[test]
fn args_parse_happy_path() {
    let args = args_of(&["--start-time", "12:34:56", "--topic", "verification"]);
    let parsed = Args::parse(&args).expect("both flags given");
    assert_eq!(parsed.start_time, 12 * 3600 + 34 * 60 + 56);
    assert_eq!(parsed.topic, "verification");
}

#[test]
fn args_parse_error_kinds() {
    assert!(matches!(
        Args::parse(&args_of(&["--frobnicate"])),
        Err(ArgsError::UnknownArg)
    ));
    assert!(matches!(
        Args::parse(&args_of(&["--topic", "t"])),
        Err(ArgsError::MissingStartTime)
    ));
    // a flag at the very end has no value
    assert!(matches!(
        Args::parse(&args_of(&["--topic", "t", "--start-time"])),
        Err(ArgsError::MissingStartTime)
    ));
    assert!(matches!(
        Args::parse(&args_of(&["--start-time", "sometime", "--topic", "t"])),
        Err(ArgsError::InvalidStartTime)
    ));
    assert!(matches!(
        Args::parse(&args_of(&["--start-time", "12:00:00"])),
        Err(ArgsError::MissingTopic)
    ));
    // a later value replaces an earlier one
    let parsed = Args::parse(&args_of(&[
        "--start-time",
        "01:00:00",
        "--start-time",
        "02:00:00",
        "--topic",
        "t",
    ]))
    .expect("still well-formed");
    assert_eq!(parsed.start_time, 2 * 3600);
}

fn message(start: u32, now: u32, topic: &str, program: &str) -> String {
    stream_starting_string(start, now, &topic.to_string(), &program.to_string())
        .iter()
        .collect()
}

#[test]
fn countdown_message_layout() {
    let got = message(3723, 3600, "demo", "prog");
    assert_eq!(
        got,
        "$ ./prog\n\nToday's topic: demo\nStream starting at 01:02:03\n    \
         Current time: 01:00:00\n    00:02:03 'till stream starts"
    );
}

#[test]
fn countdown_message_past_start() {
    // one hour and ten seconds late: signed, truncating arithmetic
    let got = message(3600, 7210, "demo", "prog");
    assert_eq!(
        got,
        "$ ./prog\n\nToday's topic: demo\nStream starting at 01:00:00\n    \
         Current time: 02:00:10\n    -1:00:-10 'till stream starts"
    );
}

#[test]
fn cursor_blinks_on_its_own_timer() {
    let mut c = CursorBlink::new(1000, 500);
    assert!(!c.visible);
    c.update(1400);
    assert!(!c.visible, "before the flip instant nothing changes");
    c.update(1501);
    assert!(c.visible);
    assert_eq!(c.flip_time, 2000);
    c.update(2001);
    assert!(!c.visible);
}

#[test]
fn texture_upload_formats() {
    assert_eq!(
        upload_format(ImageColorType::Grayscale, ImageBitDepth::Eight),
        Ok((TexelFormat::Red, TexelType::UnsignedByte))
    );
    assert_eq!(
        upload_format(ImageColorType::Rgb, ImageBitDepth::Sixteen),
        Ok((TexelFormat::Rgb, TexelType::UnsignedShort))
    );
    assert_eq!(
        upload_format(ImageColorType::Rgba, ImageBitDepth::Eight),
        Ok((TexelFormat::Rgba, TexelType::UnsignedByte))
    );
    assert_eq!(
        upload_format(ImageColorType::Indexed, ImageBitDepth::Eight),
        Err(TextureError::UnsupportedColorType)
    );
    assert_eq!(
        upload_format(ImageColorType::GrayscaleAlpha, ImageBitDepth::Eight),
        Err(TextureError::UnsupportedColorType)
    );
    assert_eq!(
        upload_format(ImageColorType::Rgb, ImageBitDepth::Four),
        Err(TextureError::UnsupportedBitDepth)
    );
}

#[test]
fn gl_error_carries_its_text() {
    let e = GlError("shader compile log".to_string());
    assert_eq!(e.0, "shader compile log");
}
