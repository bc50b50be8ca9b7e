use relativity::command::{parse_command, FrameCommand};

#[test]
fn command_main_frame() {
    assert_eq!(parse_command("set-frame main"), Some(FrameCommand::Main));
    assert_eq!(parse_command("set-frame main\n"), Some(FrameCommand::Main));
    assert_eq!(parse_command("set-frame main\r\n"), Some(FrameCommand::Main));
}

#[test]
fn command_object_frame() {
    assert_eq!(parse_command("set-frame 0\n"), Some(FrameCommand::Object(0)));
    assert_eq!(parse_command("set-frame 42"), Some(FrameCommand::Object(42)));
    assert_eq!(parse_command("set-frame 007\n"), Some(FrameCommand::Object(7)));
}

#[test]
fn command_rejected() {
    assert_eq!(parse_command(""), None);
    assert_eq!(parse_command("\n"), None);
    assert_eq!(parse_command("set-frame"), None);
    assert_eq!(parse_command("set-frame \n"), None);
    assert_eq!(parse_command("set-frame 4x"), None);
    assert_eq!(parse_command("set-frame -1"), None);
    assert_eq!(parse_command("set-frame  3"), None);
    assert_eq!(parse_command("set-frame main \n"), None);
    assert_eq!(parse_command("set-frames 3"), None);
    assert_eq!(parse_command("set-frame 3\n\n"), None);
}

#[test]
fn command_index_overflow() {
    assert_eq!(
        parse_command("set-frame 18446744073709551615"),
        Some(FrameCommand::Object(18446744073709551615))
    );
    assert_eq!(parse_command("set-frame 18446744073709551616"), None);
    assert_eq!(parse_command("set-frame 99999999999999999999999"), None);
}
