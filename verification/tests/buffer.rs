use buffer_pool::buffer::Buffer;
use buffer_pool::buffer::BufferId;
use buffer_pool::buffer::BufferPool;
use buffer_pool::buffer::BufferPoolManager;
use buffer_pool::buffer::Error;
use buffer_pool::buffer::Frame;
use buffer_pool::disk::DiskManager;
use buffer_pool::disk::Page;
use buffer_pool::disk::PageId;
use buffer_pool::disk::PAGE_SIZE;

fn create_buffer_pool() -> BufferPool {
    BufferPool::new(vec![
        Frame::new(Buffer { page_id: PageId(0), page: [0; PAGE_SIZE], is_dirty: false }),
        Frame::new(Buffer { page_id: PageId(1), page: [0; PAGE_SIZE], is_dirty: false }),
    ])
}

#[test]
fn test_evict() {
    let mut pool = create_buffer_pool();
    assert_eq!(pool.evict(), Some(BufferId(0)));
    // an outside holder takes frame 0, and it gains a usage credit
    pool.pin(BufferId(0));
    pool.set_usage_count(BufferId(0), 1);
    assert_eq!(pool.evict(), Some(BufferId(1)));
    // an outside holder takes frame 1 as well: the pool is saturated
    pool.pin(BufferId(1));
    pool.set_usage_count(BufferId(1), 1);
    assert_eq!(pool.evict(), None);
    // both holders release their handles
    pool.unpin(BufferId(0));
    pool.unpin(BufferId(1));
    // a handle to frame 1 is taken and dropped at once
    pool.pin(BufferId(1));
    pool.unpin(BufferId(1));
    assert_eq!(pool.evict(), Some(BufferId(0)));
}

#[test]
fn evict_selects_unused_frame_at_cursor() {
    let mut pool = create_buffer_pool();
    assert_eq!(pool.evict(), Some(BufferId(0)));
    // nothing was decremented on the way: the frame at the cursor was free
    assert_eq!(pool.frame(BufferId(0)).usage_count(), 0);
    assert_eq!(pool.frame(BufferId(1)).usage_count(), 0);
}

#[test]
fn evict_gives_second_chance() {
    let mut pool = create_buffer_pool();
    pool.set_usage_count(BufferId(0), 1);
    // frame 0 is scanned first: its credit drops from 1 to 0 and frame 1,
    // already free, is selected instead
    assert_eq!(pool.evict(), Some(BufferId(1)));
    assert_eq!(pool.frame(BufferId(0)).usage_count(), 0);
}

#[test]
fn evict_skips_pinned_frame() {
    let mut pool = create_buffer_pool();
    pool.pin(BufferId(0));
    pool.set_usage_count(BufferId(0), 1);
    pool.set_usage_count(BufferId(1), 2);
    // frame 0 is pinned: it is passed over on every lap and keeps its
    // credit, while frame 1 is driven from 2 to 0 and selected
    assert_eq!(pool.evict(), Some(BufferId(1)));
    assert_eq!(pool.frame(BufferId(0)).usage_count(), 1);
    assert_eq!(pool.frame(BufferId(0)).pin_count(), 1);
}

#[test]
fn evict_saturated_single_frame() {
    let mut pool = BufferPool::new(vec![Frame::new(Buffer {
        page_id: PageId(0),
        page: [0; PAGE_SIZE],
        is_dirty: false,
    })]);
    pool.pin(BufferId(0));
    pool.set_usage_count(BufferId(0), 1);
    assert_eq!(pool.evict(), None);
    pool.unpin(BufferId(0));
    assert_eq!(pool.evict(), Some(BufferId(0)));
}

#[test]
fn increment_id_wraps_around() {
    let pool = create_buffer_pool();
    assert_eq!(pool.size(), 2);
    assert_eq!(pool.increment_id(BufferId(0)), BufferId(1));
    assert_eq!(pool.increment_id(BufferId(1)), BufferId(0));
}

#[test]
fn disk_round_trip() {
    let mut disk = DiskManager::new();
    assert_eq!(disk.num_pages(), 0);
    let p0 = disk.allocate_page();
    assert_eq!(p0, PageId(0));
    assert_eq!(disk.num_pages(), 1);
    let mut written: Page = [0; PAGE_SIZE];
    written[0] = 42;
    written[PAGE_SIZE - 1] = 7;
    assert_eq!(disk.write_page_data(p0, &written), Ok(()));
    let mut read_back: Page = [0; PAGE_SIZE];
    assert_eq!(disk.read_page_data(p0, &mut read_back), Ok(()));
    assert_eq!(read_back[0], 42);
    assert_eq!(read_back[PAGE_SIZE - 1], 7);
    assert!(read_back.iter().eq(written.iter()));
}

#[test]
fn disk_rejects_unallocated_page() {
    let mut disk = DiskManager::new();
    let p0 = disk.allocate_page();
    let mut scratch: Page = [9; PAGE_SIZE];
    assert_eq!(disk.read_page_data(PageId(1), &mut scratch), Err(Error::Io));
    // a failed read leaves the caller's buffer alone
    assert_eq!(scratch[0], 9);
    assert_eq!(disk.write_page_data(PageId(1), &scratch), Err(Error::Io));
    assert_eq!(disk.read_page_data(p0, &mut scratch), Ok(()));
    assert_eq!(scratch[0], 0);
}

fn two_page_disk() -> (DiskManager, PageId, PageId) {
    let mut disk = DiskManager::new();
    let p0 = disk.allocate_page();
    let p1 = disk.allocate_page();
    let mut content: Page = [0; PAGE_SIZE];
    content[0] = 10;
    disk.write_page_data(p0, &content).unwrap();
    content[0] = 11;
    disk.write_page_data(p1, &content).unwrap();
    (disk, p0, p1)
}

fn single_frame_manager() -> (BufferPoolManager, PageId, PageId) {
    let (disk, p0, p1) = two_page_disk();
    let pool = BufferPool::new(vec![Frame::new(Buffer {
        page_id: PageId(0),
        page: [0; PAGE_SIZE],
        is_dirty: false,
    })]);
    (BufferPoolManager::new(disk, pool), p0, p1)
}

#[test]
fn fetch_miss_loads_page_from_disk() {
    let (mut manager, _p0, p1) = single_frame_manager();
    let b = manager.fetch_page(p1).unwrap();
    assert_eq!(b, BufferId(0));
    let frame = manager.pool().frame(b);
    assert_eq!(frame.buffer().page_id, p1);
    assert_eq!(frame.buffer().page[0], 11);
    assert!(!frame.buffer().is_dirty);
    assert_eq!(frame.usage_count(), 1);
    assert_eq!(frame.pin_count(), 1);
    // the page table records the new resident page
    assert_eq!(manager.lookup(p1), Some(b));
}

#[test]
fn fetch_hit_pins_and_bumps() {
    let (mut manager, p0, _p1) = single_frame_manager();
    let b = manager.fetch_page(p0).unwrap();
    let b2 = manager.fetch_page(p0).unwrap();
    assert_eq!(b2, b);
    let frame = manager.pool().frame(b);
    // one credit from the load, one from the hit; two live handles
    assert_eq!(frame.usage_count(), 2);
    assert_eq!(frame.pin_count(), 2);
    // the content is untouched by the hit
    assert_eq!(frame.buffer().page[0], 10);
    assert_eq!(frame.buffer().page_id, p0);
}

#[test]
fn fetch_fails_when_every_frame_is_pinned() {
    let (mut manager, p0, p1) = single_frame_manager();
    let b = manager.fetch_page(p0).unwrap();
    // the caller still holds its handle: the only frame is pinned
    assert_eq!(manager.fetch_page(p1), Err(Error::NoFreeBuffer));
    // the failed fetch left the resident page alone
    assert_eq!(manager.lookup(p0), Some(b));
    assert_eq!(manager.lookup(p1), None);
    // releasing the handle makes the frame evictable again
    manager.unpin(b);
    let b1 = manager.fetch_page(p1).unwrap();
    assert_eq!(b1, BufferId(0));
    assert_eq!(manager.lookup(p0), None);
    assert_eq!(manager.lookup(p1), Some(b1));
}

#[test]
fn fetch_flushes_dirty_page_before_reuse() {
    let (mut manager, p0, p1) = single_frame_manager();
    let b = manager.fetch_page(p0).unwrap();
    let mut modified: Page = [0; PAGE_SIZE];
    modified[0] = 99;
    modified[1] = 98;
    manager.write_buffer(b, &modified);
    manager.mark_dirty(b);
    manager.unpin(b);
    // the miss evicts the dirty page: its bytes must reach the disk before
    // the frame is reused
    let b1 = manager.fetch_page(p1).unwrap();
    assert_eq!(manager.pool().frame(b1).buffer().page_id, p1);
    assert_eq!(manager.pool().frame(b1).buffer().page[0], 11);
    let mut durable: Page = [0; PAGE_SIZE];
    manager.disk().read_page_data(p0, &mut durable).unwrap();
    assert_eq!(durable[0], 99);
    assert_eq!(durable[1], 98);
    // fetching the evicted page again brings back the flushed content
    manager.unpin(b1);
    let b0 = manager.fetch_page(p0).unwrap();
    assert_eq!(manager.pool().frame(b0).buffer().page[0], 99);
}

#[test]
fn fetch_clean_page_is_not_flushed() {
    let (mut manager, p0, p1) = single_frame_manager();
    let b = manager.fetch_page(p0).unwrap();
    let mut modified: Page = [0; PAGE_SIZE];
    modified[0] = 77;
    manager.write_buffer(b, &modified);
    // the dirty flag is the caller's duty; without it the change is lost
    manager.unpin(b);
    manager.fetch_page(p1).unwrap();
    let mut durable: Page = [0; PAGE_SIZE];
    manager.disk().read_page_data(p0, &mut durable).unwrap();
    assert_eq!(durable[0], 10);
}

#[test]
fn fetch_unknown_page_fails_without_commit() {
    let (mut manager, p0, _p1) = single_frame_manager();
    assert_eq!(manager.fetch_page(PageId(5)), Err(Error::Io));
    // the failed load left no stale page table entry and no pinned frame
    assert_eq!(manager.lookup(PageId(5)), None);
    assert_eq!(manager.pool().frame(BufferId(0)).pin_count(), 0);
    // the manager still works afterwards
    let b = manager.fetch_page(p0).unwrap();
    assert_eq!(manager.pool().frame(b).buffer().page[0], 10);
}

#[test]
fn fetch_failing_flush_aborts_eviction() {
    let (disk, p0, _p1) = two_page_disk();
    // the only frame claims to cache a page the disk does not know, and is
    // dirty: flushing it must fail, and the fetch with it
    let pool = BufferPool::new(vec![Frame::new(Buffer {
        page_id: PageId(9),
        page: [3; PAGE_SIZE],
        is_dirty: true,
    })]);
    let mut manager = BufferPoolManager::new(disk, pool);
    assert_eq!(manager.fetch_page(p0), Err(Error::Io));
    assert_eq!(manager.lookup(p0), None);
    // the frame was not repurposed
    assert_eq!(manager.pool().frame(BufferId(0)).buffer().page_id, PageId(9));
    let mut durable: Page = [0; PAGE_SIZE];
    manager.disk().read_page_data(p0, &mut durable).unwrap();
    assert_eq!(durable[0], 10);
}

#[test]
fn page_table_stays_consistent_across_evictions() {
    let (disk, p0, p1) = two_page_disk();
    let mut manager = BufferPoolManager::new(disk, create_buffer_pool());
    let b0 = manager.fetch_page(p0).unwrap();
    let b1 = manager.fetch_page(p1).unwrap();
    // two resident pages never share a frame
    assert_ne!(b0, b1);
    assert_eq!(manager.lookup(p0), Some(b0));
    assert_eq!(manager.lookup(p1), Some(b1));
}
