use sensor_logic::can_bus::{can_frames, inbox_action, InboxAction, RESET_COMMAND};

#[test]
fn empty_message_needs_no_frame() {
    let frames = can_frames(7, &[]);
    assert!(frames.is_empty());
}

#[test]
fn message_is_cut_into_eight_byte_frames() {
    let msg = b"Hello world this is a test of the canbus transmission system.";
    let frames = can_frames(0x42, msg);
    assert_eq!(frames.len(), (msg.len() + 7) / 8);
    for f in &frames {
        assert_eq!(f.id, 0x42);
        assert!(!f.data.is_empty() && f.data.len() <= 8);
    }
    for f in &frames[..frames.len() - 1] {
        assert_eq!(f.data.len(), 8);
    }
    assert_eq!(frames[0].data, b"Hello wo".to_vec());
    assert_eq!(frames.last().unwrap().data, b"stem.".to_vec());
    let joined: Vec<u8> = frames.iter().flat_map(|f| f.data.iter().copied()).collect();
    assert_eq!(joined, msg.to_vec());
}

#[test]
fn exact_multiple_of_eight() {
    let msg: Vec<u8> = (0u8..16).collect();
    let frames = can_frames(0xff, &msg);
    assert_eq!(frames.len(), 2);
    assert_eq!(frames[0].data, (0u8..8).collect::<Vec<u8>>());
    assert_eq!(frames[1].data, (8u8..16).collect::<Vec<u8>>());
    assert_eq!(frames[1].id, 0xff);
}

#[test]
fn single_byte_message() {
    let frames = can_frames(1, &[9]);
    assert_eq!(frames.len(), 1);
    assert_eq!(frames[0].data, vec![9]);
}

#[test]
fn inbox_decisions() {
    assert_eq!(inbox_action(None), InboxAction::Empty);
    assert_eq!(inbox_action(Some(&[RESET_COMMAND, 1, 2])), InboxAction::Reset);
    assert_eq!(inbox_action(Some(&[5])), InboxAction::Reset);
    assert_eq!(inbox_action(Some(&[4, 5])), InboxAction::Deliver);
    assert_eq!(inbox_action(Some(&[0x30])), InboxAction::Deliver);
}
