use x11_input_supercharger::x::xdotool::{click, key, parse_current_y, scroll_down, scroll_up, XdotoolCommand};

fn args(c: XdotoolCommand) -> Vec<String> {
    c.args().into_iter().map(|a| String::from_utf8(a).unwrap()).collect()
}

#[test]
fn scroll_args() {
    assert_eq!(args(scroll_up()), vec!["mousedown", "4", "mouseup", "4"]);
    assert_eq!(args(scroll_down()), vec!["mousedown", "5", "mouseup", "5"]);
}

#[test]
fn click_args() {
    assert_eq!(args(click(true, false)), vec!["mousedown", "1"]);
    assert_eq!(args(click(false, false)), vec!["mouseup", "1"]);
    assert_eq!(args(click(true, true)), vec!["mousedown", "3"]);
    assert_eq!(args(click(false, true)), vec!["mouseup", "3"]);
}

#[test]
fn key_args() {
    assert_eq!(args(key(true, 106)), vec!["keydown", "106"]);
    assert_eq!(args(key(false, 0)), vec!["keyup", "0"]);
    assert_eq!(args(key(false, 255)), vec!["keyup", "255"]);
}

#[test]
fn reads_the_height() {
    assert_eq!(parse_current_y(b"x:1234 y:456 screen:0 window:98765\n"), Some(456));
    assert_eq!(parse_current_y(b"x:0 y:0 screen:0 window:1\n"), Some(0));
    assert_eq!(parse_current_y(b"x:0 y:65535 screen:0"), Some(65535));
    assert_eq!(parse_current_y(b"x:0 y:12"), Some(12));
    assert_eq!(parse_current_y(b"x:0 y:007 s"), Some(7));
    assert_eq!(parse_current_y(b"x:0 y:+7 s"), Some(7));
}

#[test]
fn rejects_what_has_no_height() {
    assert_eq!(parse_current_y(b""), None);
    assert_eq!(parse_current_y(b"x:1234"), None);
    assert_eq!(parse_current_y(b"x:1234 "), None);
    assert_eq!(parse_current_y(b"x:1234 y"), None);
    assert_eq!(parse_current_y(b"x:1234 y: screen:0"), None);
    assert_eq!(parse_current_y(b"x:1234 y:65536 screen:0"), None);
    assert_eq!(parse_current_y(b"x:1234 y:-1 screen:0"), None);
    assert_eq!(parse_current_y(b"x:1234 y:+ screen:0"), None);
    assert_eq!(parse_current_y(b"x:1234 y:12a screen:0"), None);
    // two spaces: the second field is empty
    assert_eq!(parse_current_y(b"x:1234  y:12"), None);
}

#[test]
fn reads_back_printed_heights() {
    for y in [0u16, 1, 9, 10, 99, 100, 4096, 65535] {
        let out = format!("x:17 y:{} screen:0 window:23\n", y);
        assert_eq!(parse_current_y(out.as_bytes()), Some(y));
    }
}
