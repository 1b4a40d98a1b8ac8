use webapp_wrapper::store::WindowState;

fn ws(x: i32, y: i32, width: u32, height: u32, maximized: bool) -> WindowState {
    WindowState { x, y, width, height, maximized }
}

#[test]
fn encoding_is_the_exact_json_object() {
    let g = ws(100, 50, 300, 300, false);
    assert_eq!(
        g.to_json(),
        b"{\"x\":100,\"y\":50,\"width\":300,\"height\":300,\"maximized\":false}".to_vec()
    );
    let g = ws(-7, 0, 1, 2, true);
    assert_eq!(
        g.to_json(),
        b"{\"x\":-7,\"y\":0,\"width\":1,\"height\":2,\"maximized\":true}".to_vec()
    );
}

#[test]
fn save_then_load_returns_the_same_record() {
    let cases = [
        ws(100, 50, 150, 150, false),
        ws(0, 0, 0, 0, false),
        ws(-1, -1, 1, 1, true),
        ws(i32::MIN, i32::MAX, u32::MAX, 0, true),
        ws(2147483647, -2147483648, 4294967295, 4294967295, false),
        ws(-32000, -32000, 200, 200, true),
    ];
    for g in cases {
        let bytes = g.to_json();
        assert_eq!(WindowState::from_json(&bytes), Some(g));
    }
}

#[test]
fn reading_accepts_whitespace_and_any_member_order() {
    let text = " {\n\t\"maximized\" : true ,\r\n \"y\": -7, \"x\":0, \"height\":9, \"width\":8 } ";
    assert_eq!(
        WindowState::from_json(text.as_bytes()),
        Some(ws(0, -7, 8, 9, true))
    );
}

#[test]
fn reading_accepts_the_pretty_printed_form() {
    let text = "{\n  \"x\": 100,\n  \"y\": 50,\n  \"width\": 300,\n  \"height\": 300,\n  \"maximized\": false\n}";
    assert_eq!(
        WindowState::from_json(text.as_bytes()),
        Some(ws(100, 50, 300, 300, false))
    );
}

#[test]
fn reading_accepts_extreme_values() {
    let text = "{\"x\":-2147483648,\"y\":2147483647,\"width\":4294967295,\"height\":0,\"maximized\":true}";
    assert_eq!(
        WindowState::from_json(text.as_bytes()),
        Some(ws(i32::MIN, i32::MAX, u32::MAX, 0, true))
    );
}

#[test]
fn reading_accepts_minus_zero() {
    let text = "{\"x\":-0,\"y\":0,\"width\":1,\"height\":1,\"maximized\":false}";
    assert_eq!(WindowState::from_json(text.as_bytes()), Some(ws(0, 0, 1, 1, false)));
}

#[test]
fn missing_member_means_absent() {
    let text = "{\"x\":1,\"y\":2,\"width\":3,\"height\":4}";
    assert_eq!(WindowState::from_json(text.as_bytes()), None);
    assert_eq!(WindowState::from_json(b"{}"), None);
    assert_eq!(WindowState::from_json(b"{\"x\":1}"), None);
}

#[test]
fn repeated_member_means_absent() {
    let text = "{\"x\":1,\"x\":1,\"y\":2,\"width\":3,\"height\":4,\"maximized\":false}";
    assert_eq!(WindowState::from_json(text.as_bytes()), None);
}

#[test]
fn unknown_member_means_absent() {
    let text = "{\"x\":1,\"y\":2,\"width\":3,\"height\":4,\"maximized\":false,\"depth\":5}";
    assert_eq!(WindowState::from_json(text.as_bytes()), None);
}

#[test]
fn trailing_content_means_absent() {
    let text = "{\"x\":1,\"y\":2,\"width\":3,\"height\":4,\"maximized\":false} x";
    assert_eq!(WindowState::from_json(text.as_bytes()), None);
}

#[test]
fn malformed_numbers_mean_absent() {
    for text in [
        "{\"x\":01,\"y\":2,\"width\":3,\"height\":4,\"maximized\":false}",
        "{\"x\":1.5,\"y\":2,\"width\":3,\"height\":4,\"maximized\":false}",
        "{\"x\":1,\"y\":2,\"width\":-3,\"height\":4,\"maximized\":false}",
        "{\"x\":1,\"y\":2,\"width\":4294967296,\"height\":4,\"maximized\":false}",
        "{\"x\":2147483648,\"y\":2,\"width\":3,\"height\":4,\"maximized\":false}",
        "{\"x\":-2147483649,\"y\":2,\"width\":3,\"height\":4,\"maximized\":false}",
        "{\"x\":,\"y\":2,\"width\":3,\"height\":4,\"maximized\":false}",
        "{\"x\":-,\"y\":2,\"width\":3,\"height\":4,\"maximized\":false}",
    ] {
        assert_eq!(WindowState::from_json(text.as_bytes()), None, "{}", text);
    }
}

#[test]
fn anything_but_an_object_means_absent() {
    for text in ["", "   ", "null", "42", "[1,2]", "\"x\"", "{", "}"] {
        assert_eq!(WindowState::from_json(text.as_bytes()), None, "{}", text);
    }
}
