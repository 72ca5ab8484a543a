use rowdb::input_buffer::InputBuffer;

#[test]
fn normalize_trims_newline() {
    let mut buf = InputBuffer {
        buffer: "hello\n".to_string(),
    };

    buf.normalize();

    assert_eq!(buf.buffer, "hello");
}

#[test]
fn normalize_trims_crlf() {
    let mut buf = InputBuffer {
        buffer: "hello\n\r".to_string(),
    };

    buf.normalize();

    assert_eq!(buf.buffer, "hello");
}

#[test]
fn normalize_handles_empty_string() {
    let mut buf = InputBuffer {
        buffer: "".to_string(),
    };
    buf.normalize();

    assert_eq!(buf.buffer, "");
}

#[test]
fn normalize_trims_leading_spaces_and_tabs() {
    let mut buf = InputBuffer {
        buffer: " \t select  \n".to_string(),
    };
    buf.normalize();
    assert_eq!(buf.buffer, "select");
}

#[test]
fn is_meta_command_true_for_dot() {
    let buf = InputBuffer {
        buffer: ".exit".to_string(),
    };

    assert!(buf.is_meta_command());
}

#[test]
fn is_meta_command_false_for_normal() {
    let buf = InputBuffer {
        buffer: "select".to_string(),
    };

    assert!(!buf.is_meta_command());
}

#[test]
fn is_meta_command_false_for_empty() {
    let buf = InputBuffer::new();
    assert_eq!(buf.buffer, "");
    assert!(!buf.is_meta_command());
}
