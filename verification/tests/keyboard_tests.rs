use lockbook::keyboard::{plan_key_event, pointer_button, EguiKey, NSKeys, PointerButton};

#[test]
fn key_codes_map_to_keys() {
    assert_eq!(NSKeys::from(0), Some(NSKeys::A));
    assert_eq!(NSKeys::from(9), Some(NSKeys::V));
    assert_eq!(NSKeys::from(0x31), Some(NSKeys::Space));
    assert_eq!(NSKeys::from(126), Some(NSKeys::Up));
    assert_eq!(NSKeys::from(10), None);
    assert_eq!(NSKeys::from(200), None);
}

#[test]
fn slash_key_codes_follow_events_h() {
    assert_eq!(NSKeys::from(42), Some(NSKeys::Backslash));
    assert_eq!(NSKeys::from(43), Some(NSKeys::Comma));
    assert_eq!(NSKeys::from(44), Some(NSKeys::FrontSlash));
}

#[test]
fn text_keys_and_key_events() {
    assert!(NSKeys::A.valid_text());
    assert!(NSKeys::Space.valid_text());
    assert!(!NSKeys::Return.valid_text());
    assert_eq!(NSKeys::Return.egui_key(), Some(EguiKey::Enter));
    assert_eq!(NSKeys::Delete.egui_key(), Some(EguiKey::Delete));
    assert_eq!(NSKeys::Comma.egui_key(), None);
    assert_eq!(NSKeys::Left.egui_key(), Some(EguiKey::ArrowLeft));
}

#[test]
fn command_v_pastes() {
    let plan = plan_key_event(9, false, false, false, true, true);
    assert!(plan.paste_clipboard);
    assert!(!plan.type_text);
    assert_eq!(plan.key_event, Some(EguiKey::V));
    let plan = plan_key_event(9, true, false, false, false, true);
    assert!(!plan.paste_clipboard);
    assert!(plan.type_text);
    let plan = plan_key_event(9, false, true, false, false, true);
    assert!(!plan.type_text);
    let plan = plan_key_event(36, false, false, false, false, true);
    assert!(!plan.type_text);
    assert_eq!(plan.key_event, Some(EguiKey::Enter));
    assert_eq!(pointer_button(true), PointerButton::Primary);
    assert_eq!(pointer_button(false), PointerButton::Secondary);
}
