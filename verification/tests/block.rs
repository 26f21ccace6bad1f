use codexos::block::{
    REQUEST_DATA_OFFSET, REQUEST_HEADER_OFFSET, REQUEST_STATUS_OFFSET, SECTOR_SIZE,
};
use codexos::bootinfo::PAGE_SIZE;
use codexos::virtio::virtqueue_layout;

#[test]
fn legacy_queue_layout_obeys_device_alignment() {
    let (bytes, used_offset) = virtqueue_layout(128);
    assert_eq!(used_offset, 4096);
    assert!(bytes > 4096 && bytes <= 8192);
}

#[test]
fn request_dma_offsets_fit_in_one_page() {
    assert_eq!(REQUEST_HEADER_OFFSET, 0);
    assert!(REQUEST_STATUS_OFFSET < REQUEST_DATA_OFFSET);
    assert!(REQUEST_DATA_OFFSET + SECTOR_SIZE as u64 <= PAGE_SIZE);
}
