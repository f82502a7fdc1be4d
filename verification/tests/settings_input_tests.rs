use oxi::settings_input::{bash_timeout_cap_input, max_tool_rounds_input, port_input};

#[test]
fn max_tool_rounds_field() {
    assert_eq!(max_tool_rounds_input("   ", 7), 0);
    assert_eq!(max_tool_rounds_input(" 25 ", 7), 25);
    assert_eq!(max_tool_rounds_input("+3", 7), 3);
    assert_eq!(max_tool_rounds_input("abc", 7), 7);
    assert_eq!(max_tool_rounds_input("-1", 7), 7);
    assert_eq!(max_tool_rounds_input("4294967296", 7), 7);
    assert_eq!(max_tool_rounds_input("4294967295", 7), u32::MAX);
}

#[test]
fn bash_timeout_cap_field() {
    assert_eq!(bash_timeout_cap_input("0", 300), 300);
    assert_eq!(bash_timeout_cap_input("1", 300), 5);
    assert_eq!(bash_timeout_cap_input(" 120 ", 300), 120);
    assert_eq!(bash_timeout_cap_input("99999", 300), 3600);
    assert_eq!(bash_timeout_cap_input("", 300), 300);
    assert_eq!(bash_timeout_cap_input("x", 300), 300);
}

#[test]
fn port_field() {
    assert_eq!(port_input(" 2222 ", 22), 2222);
    assert_eq!(port_input("65536", 22), 22);
    assert_eq!(port_input("", 22), 22);
    assert_eq!(port_input("ssh", 22), 22);
}
