use ffplayout_core::relay::{
    decoder_args, encoder_args, escape_colons, log_format, ItemRelay, RelayAction,
};

fn strings(v: &[&str]) -> Vec<String> {
    v.iter().map(|s| s.to_string()).collect()
}

#[test]
fn escapes_colons() {
    assert_eq!(escape_colons("127.0.0.1:5555"), "127.0.0.1\\:5555");
    assert_eq!(escape_colons(""), "");
    assert_eq!(escape_colons("::"), "\\:\\:");
}

#[test]
fn log_format_prefix() {
    assert_eq!(log_format("error"), "level+error");
}

#[test]
fn encoder_args_without_text() {
    let args = encoder_args("error", false, false, "127.0.0.1:5555", "font.ttf");
    assert_eq!(
        args,
        strings(&["-hide_banner", "-nostats", "-v", "level+error", "-i", "pipe:0"])
    );
    let args = encoder_args("error", true, true, "127.0.0.1:5555", "font.ttf");
    assert_eq!(args.len(), 6);
}

#[test]
fn encoder_args_with_text() {
    let args = encoder_args("info", true, false, "127.0.0.1:5555", "font.ttf");
    assert_eq!(args.len(), 8);
    assert_eq!(args[6], "-vf");
    assert_eq!(
        args[7],
        "null,zmq=b=tcp\\\\://'127.0.0.1\\:5555',drawtext=text='':fontfile='font.ttf'"
    );
}

#[test]
fn decoder_args_layout() {
    let cmd = strings(&["-i", "a.mp4"]);
    let settings = strings(&["-f", "nut", "-"]);
    let args = decoder_args("error", &cmd, &strings(&["-vf", "scale=1"]), &settings);
    assert_eq!(
        args,
        strings(&[
            "-v", "level+error", "-hide_banner", "-nostats", "-i", "a.mp4", "-vf", "scale=1",
            "-f", "nut", "-"
        ])
    );
    let args = decoder_args("error", &cmd, &strings(&["x"]), &settings);
    assert_eq!(
        args,
        strings(&["-v", "level+error", "-hide_banner", "-nostats", "-i", "a.mp4", "-f", "nut", "-"])
    );
}

#[test]
fn relay_forwards_every_byte() {
    let source: Vec<u8> = (0..200u32).map(|i| (i * 7 % 251) as u8).collect();
    let mut relay = ItemRelay::new();
    let mut buffer = [0u8; 64];
    let mut pos = 0;
    let mut written = Vec::new();
    loop {
        let n = (source.len() - pos).min(buffer.len());
        buffer[..n].copy_from_slice(&source[pos..pos + n]);
        pos += n;
        match relay.on_read(Some(n), &buffer) {
            RelayAction::Write(bytes) => {
                assert_eq!(bytes.len(), n);
                written.extend_from_slice(&bytes);
            }
            _ => panic!("expected a write"),
        }
        match relay.on_write(true) {
            RelayAction::Read => continue,
            RelayAction::WaitDecoder => break,
            _ => panic!("unexpected action"),
        }
    }
    assert_eq!(written, source);
    assert!(matches!(relay.on_wait(true), RelayAction::NextItem));
}

#[test]
fn relay_aborts_on_write_failure() {
    let mut relay = ItemRelay::new();
    let buffer = [1u8, 2, 3];
    assert!(matches!(relay.on_read(Some(3), &buffer), RelayAction::Write(_)));
    assert!(matches!(relay.on_write(false), RelayAction::Abort));
    assert!(relay.is_aborted());
    assert!(matches!(relay.on_read(Some(0), &buffer), RelayAction::Abort));
    assert!(matches!(relay.on_write(true), RelayAction::Abort));
    assert!(matches!(relay.on_wait(true), RelayAction::Abort));
}

#[test]
fn relay_aborts_on_read_failure() {
    let mut relay = ItemRelay::new();
    assert!(matches!(relay.on_read(None, &[0u8; 4]), RelayAction::Abort));
    assert!(relay.is_aborted());
}

#[test]
fn relay_rejects_oversized_read() {
    let mut relay = ItemRelay::new();
    assert!(matches!(relay.on_read(Some(5), &[0u8; 4]), RelayAction::Abort));
}

#[test]
fn relay_aborts_on_wait_failure() {
    let mut relay = ItemRelay::new();
    assert!(matches!(relay.on_read(Some(0), &[0u8; 4]), RelayAction::Write(_)));
    assert!(matches!(relay.on_write(true), RelayAction::WaitDecoder));
    assert!(matches!(relay.on_wait(false), RelayAction::Abort));
}
