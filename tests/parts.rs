use fragment_assembly::{
    frame_kind, BufferBuilder, FrameKind, BEGIN_FRAG, DATA_FRAME_HEADER_LENGTH, END_FRAG,
    UNFRAGMENTED,
};

#[test]
fn frames_are_classified_by_their_flags() {
    assert_eq!(frame_kind(UNFRAGMENTED), FrameKind::Unfragmented);
    assert_eq!(frame_kind(BEGIN_FRAG), FrameKind::Begin);
    assert_eq!(frame_kind(END_FRAG), FrameKind::End);
    assert_eq!(frame_kind(0), FrameKind::Middle);
    assert_eq!(frame_kind(BEGIN_FRAG | 0x01), FrameKind::Begin);
    assert_eq!(frame_kind(0xFF), FrameKind::Unfragmented);
    assert_eq!(frame_kind(0x3F), FrameKind::Middle);
}

#[test]
fn buffer_builder_appends_after_its_prefix() {
    let mut b = BufferBuilder::new(16);
    assert_eq!(b.limit(), DATA_FRAME_HEADER_LENGTH);
    let src = [1u8, 2, 3, 4, 5, 6];
    b.append(&src, 1, 3).unwrap();
    assert_eq!(b.limit(), DATA_FRAME_HEADER_LENGTH + 3);
    b.append(&src, 5, 1).unwrap();
    assert_eq!(&b.buffer()[DATA_FRAME_HEADER_LENGTH..], &[2, 3, 4, 6]);
    b.reset();
    assert_eq!(b.limit(), DATA_FRAME_HEADER_LENGTH);
    b.append(&src, 0, 0).unwrap();
    assert_eq!(b.limit(), DATA_FRAME_HEADER_LENGTH);
}
