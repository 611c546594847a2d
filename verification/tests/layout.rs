//! Buffer layouts.

use fast_socket_rs::BufferLayout;

#[test]
fn fixed_chunk_layout_validates_bypass_facts() {
    let layout = BufferLayout::with_headroom_and_tailroom(128, 32, 16)
        .with_l2_headroom(14)
        .with_fixed_chunk(256, 512);

    assert_eq!(layout.chunk_size(), 256);
    assert_eq!(layout.stride(), 512);
    assert_eq!(layout.data_offset(), 46);
}

#[test]
fn fixed_chunk_survives_later_compatible_l2_headroom() {
    let layout = BufferLayout::with_headroom_and_tailroom(128, 32, 16)
        .with_fixed_chunk(256, 512)
        .with_l2_headroom(14);

    assert_eq!(layout.chunk_size(), 256);
    assert_eq!(layout.stride(), 512);
    assert_eq!(layout.data_offset(), 46);
}
