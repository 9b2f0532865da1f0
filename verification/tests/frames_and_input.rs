//! Frame decoding and input-injection dispatch, plus the identifier and
//! helper text functions.

use macropinna_remote::device::Agent;
use macropinna_remote::frame::decode_event;
use macropinna_remote::ident::{format_pairing_code, parse_uuid, uuid_text};
use macropinna_remote::input::{
    injection_ops, Action, DPadDirection, InjectionKey, InjectionOp, Key, MouseButton,
    MouseDelta, RemoteControlEvent,
};
use macropinna_remote::ip::{choose_interface, format_server_address, IfaceInfo};
use macropinna_remote::window::raise_home;

fn decode_move(frame: &str) -> (MouseDelta, MouseDelta) {
    match decode_event(frame) {
        Some(RemoteControlEvent::MouseMove { dx, dy }) => (dx, dy),
        other => panic!("expected a mouse move, got {:?}", other.is_some()),
    }
}

#[test]
fn text_frame_types_characters_then_enter_in_order() {
    let event = decode_event("{\"Text\":\"hi\\n\"}").expect("frame must decode");
    let ops = injection_ops(&event);
    assert_eq!(
        ops,
        vec![
            InjectionOp::UnicodeChar('h'),
            InjectionOp::UnicodeChar('i'),
            InjectionOp::KeyClick(InjectionKey::ReturnOrEnter),
        ]
    );
}

#[test]
fn huge_mouse_delta_is_decoded_but_dispatches_nothing() {
    let (dx, dy) = decode_move("{\"MouseMove\":{\"dx\":1e300,\"dy\":0}}");
    assert_eq!(dx, MouseDelta::Unrepresentable);
    assert_eq!(dy, MouseDelta::Px(0));
    let event = RemoteControlEvent::MouseMove { dx, dy };
    assert!(injection_ops(&event).is_empty());
}

#[test]
fn dpad_frame_maps_to_navigation_key() {
    let event = decode_event("{\"DPad\":\"Up\"}").expect("frame must decode");
    assert!(matches!(event, RemoteControlEvent::DPad(DPadDirection::Up)));
    assert_eq!(
        injection_ops(&event),
        vec![InjectionOp::KeyClick(InjectionKey::UpArrow)]
    );
}

#[test]
fn keyboard_frame_maps_backspace() {
    let event = decode_event("{\"Keyboard\":\"Backspace\"}").expect("frame must decode");
    assert!(matches!(event, RemoteControlEvent::Keyboard(Key::Backspace)));
    assert_eq!(
        injection_ops(&event),
        vec![InjectionOp::KeyClick(InjectionKey::DeleteOrBackspace)]
    );
}

#[test]
fn mouse_button_frames_decode() {
    let event = decode_event("{\"MouseDown\":\"LeftButton\"}").unwrap();
    assert!(matches!(
        event,
        RemoteControlEvent::MouseDown(MouseButton::LeftButton)
    ));
    let event = decode_event("{\"MouseUp\":\"RightButton\"}").unwrap();
    assert!(matches!(
        event,
        RemoteControlEvent::MouseUp(MouseButton::RightButton)
    ));
    let event = decode_event("{\"MouseClick\":\"MiddleButton\"}").unwrap();
    assert!(matches!(
        event,
        RemoteControlEvent::MouseClick(MouseButton::MiddleButton)
    ));
}

#[test]
fn alt_tab_action_presses_the_chord() {
    let event = decode_event("{\"Action\":\"AltTab\"}").unwrap();
    assert!(matches!(event, RemoteControlEvent::Action(Action::AltTab)));
    assert_eq!(
        injection_ops(&event),
        vec![
            InjectionOp::KeyDown(InjectionKey::Alt),
            InjectionOp::KeyClick(InjectionKey::Tab),
            InjectionOp::KeyUp(InjectionKey::Alt),
        ]
    );
}

#[test]
fn unassigned_action_dispatches_nothing() {
    let event = decode_event("{\"Action\":\"Home\"}").unwrap();
    assert!(injection_ops(&event).is_empty());
}

#[test]
fn delta_rounding_cases() {
    assert_eq!(
        decode_move("{\"MouseMove\":{\"dx\":1.5,\"dy\":-1.5}}"),
        (MouseDelta::Px(2), MouseDelta::Px(-2))
    );
    assert_eq!(
        decode_move("{\"MouseMove\":{\"dx\":0.4,\"dy\":0.5}}"),
        (MouseDelta::Px(0), MouseDelta::Px(1))
    );
    assert_eq!(
        decode_move("{\"MouseMove\":{\"dx\":-0.49,\"dy\":12.25}}"),
        (MouseDelta::Px(0), MouseDelta::Px(12))
    );
}

#[test]
fn delta_exponent_cases() {
    assert_eq!(
        decode_move("{\"MouseMove\":{\"dx\":1e2,\"dy\":1.25e2}}"),
        (MouseDelta::Px(100), MouseDelta::Px(125))
    );
    assert_eq!(
        decode_move("{\"MouseMove\":{\"dx\":125e-2,\"dy\":-2.5E+1}}"),
        (MouseDelta::Px(1), MouseDelta::Px(-25))
    );
    assert_eq!(
        decode_move("{\"MouseMove\":{\"dx\":0e99999999,\"dy\":1e-300}}"),
        (MouseDelta::Px(0), MouseDelta::Px(0))
    );
    // exponents of any length saturate rather than fail to decode
    assert_eq!(
        decode_move("{\"MouseMove\":{\"dx\":1e99999999999999999999999,\"dy\":1e-99999999999999999999999}}"),
        (MouseDelta::Unrepresentable, MouseDelta::Px(0))
    );
    assert_eq!(
        decode_move("{\"MouseMove\":{\"dx\":0e99999999999999999999999,\"dy\":1e0000000002}}"),
        (MouseDelta::Px(0), MouseDelta::Px(100))
    );
}

#[test]
fn delta_sign_and_zero_forms() {
    assert_eq!(
        decode_move("{\"MouseMove\":{\"dx\":-0,\"dy\":0.000}}"),
        (MouseDelta::Px(0), MouseDelta::Px(0))
    );
    assert_eq!(
        decode_move("{\"MouseMove\":{\"dx\":9999999999,\"dy\":1e+2}}"),
        (MouseDelta::Unrepresentable, MouseDelta::Px(100))
    );
}

#[test]
fn delta_range_limits() {
    assert_eq!(
        decode_move("{\"MouseMove\":{\"dx\":2147483647,\"dy\":-2147483648}}"),
        (MouseDelta::Px(2147483647), MouseDelta::Px(-2147483648))
    );
    assert_eq!(
        decode_move("{\"MouseMove\":{\"dx\":2147483648,\"dy\":-2147483649}}"),
        (MouseDelta::Unrepresentable, MouseDelta::Unrepresentable)
    );
    assert_eq!(
        decode_move("{\"MouseMove\":{\"dx\":2147483647.5,\"dy\":-2147483648.4}}"),
        (MouseDelta::Unrepresentable, MouseDelta::Px(-2147483648))
    );
}

#[test]
fn scroll_keys_in_either_order() {
    let event = decode_event("{\"MouseScroll\":{\"dy\":3,\"dx\":-2}}").unwrap();
    match event {
        RemoteControlEvent::MouseScroll { dx, dy } => {
            assert_eq!(dx, MouseDelta::Px(-2));
            assert_eq!(dy, MouseDelta::Px(3));
        },
        _ => panic!("expected a scroll"),
    }
}

#[test]
fn whitespace_between_tokens_is_accepted() {
    let event = decode_event(" { \"DPad\" : \"Exit\" } ").unwrap();
    assert!(matches!(event, RemoteControlEvent::DPad(DPadDirection::Exit)));
}

#[test]
fn string_escapes_decode() {
    let event = decode_event("{\"Text\":\"a\\\"b\\\\c\\/d\\t\\r\\b\\f\"}").unwrap();
    match event {
        RemoteControlEvent::Text(t) => {
            assert_eq!(t, "a\"b\\c/d\t\r\u{0008}\u{000C}");
        },
        _ => panic!("expected text"),
    }
}

#[test]
fn unicode_escapes_decode() {
    let event = decode_event("{\"Text\":\"\\u0041\\u00e9\\u20AC\\u0007\"}").unwrap();
    match event {
        RemoteControlEvent::Text(t) => {
            assert_eq!(t, "A\u{e9}\u{20ac}\u{7}");
        },
        _ => panic!("expected text"),
    }
}

#[test]
fn surrogate_pair_escapes_decode() {
    let event = decode_event("{\"Text\":\"\\ud83d\\ude00!\"}").unwrap();
    match event {
        RemoteControlEvent::Text(t) => {
            assert_eq!(t, "\u{1F600}!");
        },
        _ => panic!("expected text"),
    }
}

#[test]
fn bad_unicode_escapes_are_dropped() {
    // lone high surrogate, lone low surrogate, short hex, bad hex
    assert!(decode_event("{\"Text\":\"\\ud83dx\"}").is_none());
    assert!(decode_event("{\"Text\":\"\\ude00\"}").is_none());
    assert!(decode_event("{\"Text\":\"\\u12\"}").is_none());
    assert!(decode_event("{\"Text\":\"\\u12g4\"}").is_none());
}

#[test]
fn malformed_frames_are_dropped() {
    assert!(decode_event("").is_none());
    assert!(decode_event("{}").is_none());
    assert!(decode_event("{\"Nope\":\"Up\"}").is_none());
    assert!(decode_event("{\"DPad\":\"Sideways\"}").is_none());
    assert!(decode_event("{\"Text\":\"unterminated").is_none());
    assert!(decode_event("{\"Text\":\"bad\\escape\"}").is_none());
    assert!(decode_event("{\"MouseMove\":{\"dx\":1}}").is_none());
    assert!(decode_event("{\"MouseMove\":{\"dx\":1,\"dz\":2}}").is_none());
    assert!(decode_event("{\"MouseMove\":{\"dx\":.5,\"dy\":0}}").is_none());
    assert!(decode_event("{\"MouseMove\":{\"dx\":1.,\"dy\":0}}").is_none());
    assert!(decode_event("{\"MouseMove\":{\"dx\":01,\"dy\":0}}").is_none());
    assert!(decode_event("{\"MouseMove\":{\"dx\":-00.5,\"dy\":0}}").is_none());
    assert!(decode_event("{\"DPad\":\"Up\"} trailing").is_none());
    assert!(decode_event("{\"DPad\":\"Up\"").is_none());
}

#[test]
fn identifier_text_round_trips() {
    let u: u128 = 0x123e4567_e89b_12d3_a456_426614174000;
    let text = uuid_text(u);
    assert_eq!(text, "123e4567-e89b-12d3-a456-426614174000");
    assert_eq!(parse_uuid(&text), Some(u));
    assert_eq!(parse_uuid("123E4567-E89B-12D3-A456-426614174000"), Some(u));
    assert_eq!(parse_uuid(&uuid_text(0)), Some(0));
    assert_eq!(parse_uuid(&uuid_text(u128::MAX)), Some(u128::MAX));
}

#[test]
fn identifier_text_rejects_bad_shapes() {
    assert!(parse_uuid("").is_none());
    assert!(parse_uuid("123e4567e89b12d3a456426614174000").is_none());
    assert!(parse_uuid("123e4567-e89b-12d3-a456-42661417400g").is_none());
    assert!(parse_uuid("123e4567+e89b-12d3-a456-426614174000").is_none());
}

#[test]
fn pairing_code_formats_low_digits() {
    assert_eq!(format_pairing_code(0), "00000000");
    assert_eq!(format_pairing_code(12345678), "12345678");
    assert_eq!(format_pairing_code(987654321), "87654321");
}

#[test]
fn agent_classification_by_substring() {
    assert!(matches!(Agent::from_user_agent("Linux; Android 13"), Agent::Android));
    assert!(matches!(Agent::from_user_agent("iPhone OS 17"), Agent::IPhone));
    assert!(matches!(Agent::from_user_agent("Windows NT 10.0"), Agent::Desktop));
    assert!(matches!(Agent::from_user_agent("Macintosh; Intel"), Agent::Desktop));
    assert!(matches!(Agent::from_user_agent("X11; Linux x86_64"), Agent::Desktop));
    assert!(matches!(Agent::from_user_agent("curl/8.0"), Agent::Unknown));
    // precedence: the Android check comes first
    assert!(matches!(Agent::from_user_agent("X11 Android"), Agent::Android));
}

#[test]
fn agent_labels_round_trip() {
    for a in [Agent::Android, Agent::IPhone, Agent::Desktop, Agent::Unknown] {
        assert_eq!(Agent::from_label(a.label()), Some(a));
    }
    assert_eq!(Agent::from_label("Toaster"), None);
}

#[test]
fn interface_choice_prefers_specific_netmask() {
    let ifs = vec![
        IfaceInfo { loopback: true, v4: true, netmask: 0xffffffff },
        IfaceInfo { loopback: false, v4: true, netmask: 0xffff0000 },
        IfaceInfo { loopback: false, v4: true, netmask: 0xffffff00 },
        IfaceInfo { loopback: false, v4: false, netmask: 0 },
    ];
    assert_eq!(choose_interface(&ifs), Some(2));

    let loopback_only = vec![IfaceInfo { loopback: true, v4: true, netmask: 1 }];
    assert_eq!(choose_interface(&loopback_only), None);

    // ties go to the later interface
    let tie = vec![
        IfaceInfo { loopback: false, v4: true, netmask: 5 },
        IfaceInfo { loopback: false, v4: true, netmask: 5 },
    ];
    assert_eq!(choose_interface(&tie), Some(1));
}

#[test]
fn server_address_formatting() {
    assert_eq!(format_server_address("192.168.1.4", 5174), "https://192.168.1.4:5174");
    assert_eq!(format_server_address("10.0.0.1", 0), "https://10.0.0.1:0");
    assert_eq!(format_server_address("host", 65535), "https://host:65535");
}

#[test]
fn raise_home_picks_exact_title_only() {
    let titles = vec![
        "Macropinna Settings".to_string(),
        "Macropinna".to_string(),
        "Macropinna".to_string(),
    ];
    assert_eq!(raise_home(&titles), Some(1));
    assert_eq!(raise_home(&vec!["Something".to_string()]), None);
    assert_eq!(raise_home(&vec![]), None);
}
