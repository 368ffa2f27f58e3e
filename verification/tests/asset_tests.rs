use image_index::asset::decode_asset_path;
use image_index::control::{ControlMessage, ControlType};

#[test]
fn asset_paths_are_percent_decoded() {
    assert_eq!(
        decode_asset_path("/a%20b.png").as_deref(),
        Some("a b.png")
    );
    assert_eq!(decode_asset_path("/plain.png").as_deref(), Some("plain.png"));
    assert_eq!(
        decode_asset_path("/dir%2Fsub/pic.jpg").as_deref(),
        Some("dir/sub/pic.jpg")
    );
    assert_eq!(decode_asset_path("/%E2%82%AC.png").as_deref(), Some("\u{20AC}.png"));
}

#[test]
fn non_asset_paths_are_refused() {
    assert_eq!(decode_asset_path(""), None);
    assert_eq!(decode_asset_path("no-slash.png"), None);
}

#[test]
fn control_messages_carry_their_payload() {
    let start = ControlMessage::start(String::from("req-server"), String::from("resp-server"));
    assert!(matches!(start.control_type, ControlType::Start));
    let names = start.message.expect("start carries the two server names");
    assert_eq!(names[0], "req-server");
    assert_eq!(names[1], "resp-server");

    let stop = ControlMessage::stop();
    assert!(matches!(stop.control_type, ControlType::Stop));
    assert!(stop.message.is_none());
}
