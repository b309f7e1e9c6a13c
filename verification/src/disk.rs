//! The durable-storage side of the buffer pool: page identifiers, the fixed
//! page size, and a disk manager that reads and writes whole page blocks.

use vstd::prelude::*;

use crate::buffer::Error;

verus! {

broadcast use vstd::array::group_array_axioms;

/// Size in bytes of one page block; every page held in memory or on disk is
/// exactly this long.
pub const PAGE_SIZE: usize = 4096;

/// One page's worth of raw bytes.
pub type Page = [u8; PAGE_SIZE];

/// Identifier of a page on durable storage. Assigned by the disk manager and
/// stable for the page's lifetime; only equality matters to the pool.
#[derive(Debug, Default, Clone, Copy, Eq, Hash, PartialEq, Structural)]
pub struct PageId(pub u64);

/// The bytes of a freshly allocated page: all zero.
pub open spec fn zero_page() -> Seq<u8> {
    Seq::new(PAGE_SIZE as nat, |i: int| 0u8)
}

/// The disk collaborator: owns the durable copy of every allocated page and
/// performs whole-block reads and writes. Modelled as an in-memory store of
/// page blocks indexed by `PageId`; a page is on disk exactly when its
/// identifier is below the number of allocated pages.
pub struct DiskManager {
    pages: Vec<Page>,
}

impl View for DiskManager {
    type V = Seq<Seq<u8>>;

    closed spec fn view(&self) -> Seq<Seq<u8>> {
        self.pages@.map_values(|p: Page| p@)
    }
}

impl DiskManager {
    /// A disk with no pages allocated yet.
    pub fn new() -> (disk: DiskManager)
        ensures
            disk@ == Seq::<Seq<u8>>::empty(),
    {
        DiskManager { pages: Vec::new() }
    }

    /// The number of pages allocated on this disk.
    pub fn num_pages(&self) -> (n: usize)
        ensures
            n == self@.len(),
    {
        self.pages.len()
    }

    /// Allocates a fresh page, zero-filled, and returns its identifier.
    pub fn allocate_page(&mut self) -> (page_id: PageId)
        ensures
            final(self)@ == old(self)@.push(zero_page()),
            page_id.0 == old(self)@.len(),
    {
        let id = self.pages.len() as u64;
        self.pages.push([0u8; PAGE_SIZE]);
        proof {
            assert(self@ =~~= old(self)@.push(zero_page()));
        }
        PageId(id)
    }

    /// Fills `data` with the durable content of `page_id`. Fails with an I/O
    /// error, leaving `data` unchanged, exactly when the page is not on disk.
    pub fn read_page_data(&self, page_id: PageId, data: &mut Page) -> (r: Result<(), Error>)
        ensures
            r is Ok <==> page_id.0 < self@.len(),
            r is Ok ==> final(data)@ == self@[page_id.0 as int],
            r is Err ==> *final(data) == *old(data) && r == Err::<(), Error>(Error::Io),
    {
        if page_id.0 < self.pages.len() as u64 {
            *data = self.pages[page_id.0 as usize];
            Ok(())
        } else {
            Err(Error::Io)
        }
    }

    /// Persists `data` as the durable content of `page_id`. Fails with an I/O
    /// error, leaving the disk unchanged, exactly when the page is not on disk.
    pub fn write_page_data(&mut self, page_id: PageId, data: &Page) -> (r: Result<(), Error>)
        ensures
            r is Ok <==> page_id.0 < old(self)@.len(),
            r is Ok ==> final(self)@ == old(self)@.update(page_id.0 as int, data@),
            r is Err ==> *final(self) == *old(self) && r == Err::<(), Error>(Error::Io),
    {
        if page_id.0 < self.pages.len() as u64 {
            self.pages[page_id.0 as usize] = *data;
            proof {
                assert(self@ =~= old(self)@.update(page_id.0 as int, data@));
            }
            Ok(())
        } else {
            Err(Error::Io)
        }
    }
}

} // verus!
