//! The buffer pool: frames caching disk pages, clock-sweep eviction with
//! pin tracking, and the manager that ties eviction to the disk through a
//! page table.

use vstd::prelude::*;

use vstd::hash_map::HashMapWithView;

use crate::disk::DiskManager;
use crate::disk::Page;
use crate::disk::PageId;
use crate::disk::PAGE_SIZE;

verus! {

broadcast use vstd::std_specs::hash::group_hash_axioms;

/// Why a fetch failed.
#[derive(Debug, Clone, Copy, Eq, Hash, PartialEq, Structural)]
pub enum Error {
    /// The disk manager could not complete a read or write: the requested
    /// page is not on durable storage.
    Io,
    /// Every frame in the pool is held by an outside accessor; no frame can
    /// be repurposed until some handle is released.
    NoFreeBuffer,
}

/// Index of a frame in the pool's fixed frame array. Purely an in-memory
/// addressing handle; never persisted.
#[derive(Debug, Default, Clone, Copy, Eq, Hash, PartialEq, Structural)]
pub struct BufferId(pub usize);

/// One cached page: which on-disk page occupies this memory, its raw bytes,
/// and whether the in-memory content has diverged from the on-disk copy.
/// Callers that modify `page` must set `is_dirty` themselves.
pub struct Buffer {
    pub page_id: PageId,
    pub page: Page,
    pub is_dirty: bool,
}

/// Mathematical model of a `Buffer`.
pub ghost struct BufferView {
    pub page_id: u64,
    pub page: Seq<u8>,
    pub is_dirty: bool,
}

impl View for Buffer {
    type V = BufferView;

    open spec fn view(&self) -> BufferView {
        BufferView { page_id: self.page_id.0, page: self.page@, is_dirty: self.is_dirty }
    }
}

/// A pool slot: a buffer together with the counters the eviction algorithm
/// reads. `usage_count` is the clock-sweep "recently used" credit;
/// `pin_count` is the number of live outside handles to the buffer, and a
/// frame with `pin_count > 0` is pinned: it must not be repurposed.
pub struct Frame {
    usage_count: u64,
    pin_count: u64,
    buffer: Buffer,
}

/// Mathematical model of a `Frame`.
pub ghost struct FrameView {
    pub usage_count: u64,
    pub pin_count: u64,
    pub buffer: BufferView,
}

impl View for Frame {
    type V = FrameView;

    closed spec fn view(&self) -> FrameView {
        FrameView {
            usage_count: self.usage_count,
            pin_count: self.pin_count,
            buffer: self.buffer@,
        }
    }
}

/// A frame is pinned when some outside accessor still holds its buffer.
pub open spec fn frame_pinned(f: FrameView) -> bool {
    f.pin_count > 0
}

/// The frame after one "second chance": its usage credit reduced by one.
pub open spec fn frame_decremented(f: FrameView) -> FrameView {
    FrameView { usage_count: (f.usage_count - 1) as u64, ..f }
}

/// The index after `i` in the circular scan over `n` frames.
pub open spec fn next_index(i: int, n: int) -> int
    recommends
        0 <= i < n,
{
    (i + 1) % n
}

/// Usage credit still to be burned before the sweep can select a frame:
/// the sum of `usage_count` over the frames the sweep may still decrement
/// (the unpinned ones). Termination measure of the clock sweep.
pub open spec fn unpinned_usage_total(frames: Seq<FrameView>) -> int
    decreases frames.len(),
{
    if frames.len() == 0 {
        0
    } else {
        unpinned_usage_total(frames.drop_last()) + if frame_pinned(frames.last()) {
            0
        } else {
            frames.last().usage_count as int
        }
    }
}

/// The clock sweep itself, as a function of the pool state: frames, the
/// cursor, and the count of consecutive pinned frames observed so far.
/// Returns the selected victim (or `None` when the pool is saturated), the
/// frames after the sweep's decrements, and the final cursor position.
///
/// At each cursor position: a frame whose usage credit is zero is selected
/// outright; an unpinned frame is given a second chance (credit reduced by
/// one) and the scan moves on; a pinned frame is counted, and once every
/// frame in the pool has been observed pinned in a row the sweep gives up.
pub open spec fn sweep(frames: Seq<FrameView>, cursor: int, pinned_run: int) -> (
    Option<int>,
    Seq<FrameView>,
    int,
)
    recommends
        0 <= cursor < frames.len(),
        0 <= pinned_run,
    decreases unpinned_usage_total(frames), frames.len() - pinned_run,
    when 0 <= cursor < frames.len() && 0 <= pinned_run
    via sweep_decreases
{
    let f = frames[cursor];
    if f.usage_count == 0 {
        (Some(cursor), frames, cursor)
    } else if !frame_pinned(f) {
        sweep(
            frames.update(cursor, frame_decremented(f)),
            next_index(cursor, frames.len() as int),
            0,
        )
    } else if pinned_run + 1 >= frames.len() {
        (None, frames, cursor)
    } else {
        sweep(frames, next_index(cursor, frames.len() as int), pinned_run + 1)
    }
}

/// The contribution of one frame to `unpinned_usage_total`.
spec fn frame_usage_contribution(f: FrameView) -> int {
    if frame_pinned(f) {
        0
    } else {
        f.usage_count as int
    }
}

proof fn lemma_unpinned_usage_total_nonneg(frames: Seq<FrameView>)
    ensures
        unpinned_usage_total(frames) >= 0,
    decreases frames.len(),
{
    if frames.len() > 0 {
        lemma_unpinned_usage_total_nonneg(frames.drop_last());
    }
}

proof fn lemma_unpinned_usage_total_update(frames: Seq<FrameView>, i: int, g: FrameView)
    requires
        0 <= i < frames.len(),
    ensures
        unpinned_usage_total(frames.update(i, g)) == unpinned_usage_total(frames)
            - frame_usage_contribution(frames[i]) + frame_usage_contribution(g),
    decreases frames.len(),
{
    let updated = frames.update(i, g);
    if i == frames.len() - 1 {
        assert(updated.drop_last() =~= frames.drop_last());
    } else {
        lemma_unpinned_usage_total_update(frames.drop_last(), i, g);
        assert(updated.drop_last() =~= frames.drop_last().update(i, g));
    }
}

#[via_fn]
proof fn sweep_decreases(frames: Seq<FrameView>, cursor: int, pinned_run: int) {
    if 0 <= cursor < frames.len() && 0 <= pinned_run {
        let f = frames[cursor];
        lemma_unpinned_usage_total_nonneg(frames);
        if f.usage_count > 0 && !frame_pinned(f) {
            lemma_unpinned_usage_total_update(frames, cursor, frame_decremented(f));
            lemma_unpinned_usage_total_nonneg(frames.update(cursor, frame_decremented(f)));
        }
    }
}

/// A frame the sweep can select: its usage credit is already zero, or no
/// outside holder prevents it from being driven there.
spec fn frame_evictable(f: FrameView) -> bool {
    f.usage_count == 0 || f.pin_count == 0
}

/// How many steps the circular scan over `n` slots takes to reach `to`
/// from `from`.
spec fn scan_distance(from: int, to: int, n: int) -> int
    recommends
        0 <= from < n,
        0 <= to < n,
{
    if to >= from {
        to - from
    } else {
        to - from + n
    }
}

/// What one sweep does to the frames, whatever it returns: frame count,
/// pins and buffer contents are untouched; usage credits only ever
/// decrease, and those of pinned frames not at all; a selected victim is a
/// valid slot, carries no usage credit afterwards, and the cursor is left
/// on it.
pub proof fn lemma_sweep_frame_effects(frames: Seq<FrameView>, cursor: int, pinned_run: int)
    requires
        0 <= cursor < frames.len(),
        0 <= pinned_run,
    ensures
        ({
            let s = sweep(frames, cursor, pinned_run);
            &&& s.1.len() == frames.len()
            &&& 0 <= s.2 < frames.len()
            &&& forall|j: int|
                0 <= j < frames.len() ==> {
                    &&& (#[trigger] s.1[j]).pin_count == frames[j].pin_count
                    &&& s.1[j].buffer == frames[j].buffer
                    &&& s.1[j].usage_count <= frames[j].usage_count
                    &&& (frame_pinned(frames[j]) ==> s.1[j].usage_count == frames[j].usage_count)
                }
            &&& match s.0 {
                Some(v) => 0 <= v < frames.len() && s.2 == v && s.1[v].usage_count == 0,
                None => true,
            }
        }),
    decreases unpinned_usage_total(frames), frames.len() - pinned_run,
{
    let f = frames[cursor];
    let n = frames.len() as int;
    if f.usage_count == 0 {
    } else if !frame_pinned(f) {
        let updated = frames.update(cursor, frame_decremented(f));
        lemma_unpinned_usage_total_update(frames, cursor, frame_decremented(f));
        lemma_unpinned_usage_total_nonneg(updated);
        lemma_sweep_frame_effects(updated, next_index(cursor, n), 0);
    } else if pinned_run + 1 >= n {
    } else {
        lemma_sweep_frame_effects(frames, next_index(cursor, n), pinned_run + 1);
    }
}

/// Law: eviction selects unused frames first. Started at a cursor whose
/// frame carries no usage credit, the sweep selects that frame immediately
/// and changes nothing.
pub proof fn lemma_sweep_selects_free_frame(frames: Seq<FrameView>, cursor: int)
    requires
        0 <= cursor < frames.len(),
        frames[cursor].usage_count == 0,
    ensures
        sweep(frames, cursor, 0) == (Some(cursor), frames, cursor),
{
}

/// Law: second-chance decrement. A frame with positive usage credit and no
/// outside holders is not selected when scanned: its credit drops by one
/// and the sweep continues past it, so by the time the sweep ends the
/// frame's credit is strictly below where it started.
pub proof fn lemma_sweep_second_chance(frames: Seq<FrameView>, cursor: int, pinned_run: int)
    requires
        0 <= cursor < frames.len(),
        0 <= pinned_run,
        frames[cursor].usage_count > 0,
        frames[cursor].pin_count == 0,
    ensures
        sweep(frames, cursor, pinned_run) == sweep(
            frames.update(cursor, frame_decremented(frames[cursor])),
            next_index(cursor, frames.len() as int),
            0,
        ),
        sweep(frames, cursor, pinned_run).1[cursor].usage_count <= frames[cursor].usage_count
            - 1,
{
    let updated = frames.update(cursor, frame_decremented(frames[cursor]));
    lemma_sweep_frame_effects(updated, next_index(cursor, frames.len() as int), 0);
}

/// Law: pin respects ownership. A frame whose buffer has an outside holder
/// and whose usage credit is positive is never selected as the victim, at
/// whatever point of the scan it is reached.
pub proof fn lemma_sweep_never_selects_pinned(
    frames: Seq<FrameView>,
    cursor: int,
    pinned_run: int,
    j: int,
)
    requires
        0 <= cursor < frames.len(),
        0 <= pinned_run,
        0 <= j < frames.len(),
        frame_pinned(frames[j]),
        frames[j].usage_count > 0,
    ensures
        sweep(frames, cursor, pinned_run).0 != Some(j),
{
    lemma_sweep_frame_effects(frames, cursor, pinned_run);
}

proof fn lemma_sweep_saturated_pool(frames: Seq<FrameView>, cursor: int, pinned_run: int)
    requires
        0 <= cursor < frames.len(),
        0 <= pinned_run < frames.len(),
        forall|j: int|
            0 <= j < frames.len() ==> frame_pinned(#[trigger] frames[j])
                && frames[j].usage_count > 0,
    ensures
        sweep(frames, cursor, pinned_run).0 is None,
        sweep(frames, cursor, pinned_run).1 == frames,
    decreases frames.len() - pinned_run,
{
    let n = frames.len() as int;
    if pinned_run + 1 < n {
        lemma_sweep_saturated_pool(frames, next_index(cursor, n), pinned_run + 1);
    }
}

proof fn lemma_sweep_finds_victim(frames: Seq<FrameView>, cursor: int, pinned_run: int, j: int)
    requires
        0 <= cursor < frames.len(),
        0 <= pinned_run,
        0 <= j < frames.len(),
        frame_evictable(frames[j]),
        scan_distance(cursor, j, frames.len() as int) <= frames.len() - 1 - pinned_run,
    ensures
        sweep(frames, cursor, pinned_run).0 is Some,
    decreases unpinned_usage_total(frames), frames.len() - pinned_run,
{
    let f = frames[cursor];
    let n = frames.len() as int;
    if f.usage_count == 0 {
    } else if !frame_pinned(f) {
        let updated = frames.update(cursor, frame_decremented(f));
        lemma_unpinned_usage_total_update(frames, cursor, frame_decremented(f));
        lemma_unpinned_usage_total_nonneg(updated);
        lemma_sweep_finds_victim(updated, next_index(cursor, n), 0, j);
    } else {
        assert(j != cursor);
        lemma_next_index_step(cursor, n);
        lemma_sweep_finds_victim(frames, next_index(cursor, n), pinned_run + 1, j);
    }
}

proof fn lemma_next_index_step(cursor: int, n: int)
    requires
        0 <= cursor < n,
    ensures
        next_index(cursor, n) == if cursor + 1 == n {
            0int
        } else {
            cursor + 1
        },
{
    if cursor + 1 == n {
        vstd::arithmetic::div_mod::lemma_mod_self_0(n);
    } else {
        vstd::arithmetic::div_mod::lemma_small_mod((cursor + 1) as nat, n as nat);
    }
}

/// Law: saturation detection. The sweep gives up with "no victim" exactly
/// when every frame in the pool is pinned and carries usage credit; in that
/// case it leaves every frame as it was, rather than scanning forever.
pub proof fn lemma_sweep_saturation(frames: Seq<FrameView>, cursor: int)
    requires
        0 <= cursor < frames.len(),
    ensures
        sweep(frames, cursor, 0).0 is None <==> (forall|j: int|
            0 <= j < frames.len() ==> frame_pinned(#[trigger] frames[j])
                && frames[j].usage_count > 0),
        sweep(frames, cursor, 0).0 is None ==> sweep(frames, cursor, 0).1 == frames,
{
    if forall|j: int|
        0 <= j < frames.len() ==> frame_pinned(#[trigger] frames[j]) && frames[j].usage_count
            > 0 {
        lemma_sweep_saturated_pool(frames, cursor, 0);
    } else {
        let j = choose|j: int|
            0 <= j < frames.len() && !(frame_pinned(frames[j]) && frames[j].usage_count > 0);
        assert(frame_evictable(frames[j]));
        lemma_sweep_finds_victim(frames, cursor, 0, j);
    }
}

impl Frame {
    /// A fresh frame around `buffer`: no usage credit, no outside holders.
    pub fn new(buffer: Buffer) -> (f: Frame)
        ensures
            f@ == (FrameView { usage_count: 0, pin_count: 0, buffer: buffer@ }),
    {
        Frame { usage_count: 0, pin_count: 0, buffer }
    }

    /// The frame's clock-sweep usage credit.
    pub fn usage_count(&self) -> (n: u64)
        ensures
            n == self@.usage_count,
    {
        self.usage_count
    }

    /// The number of live outside handles to this frame's buffer.
    pub fn pin_count(&self) -> (n: u64)
        ensures
            n == self@.pin_count,
    {
        self.pin_count
    }

    /// Read access to the cached page.
    pub fn buffer(&self) -> (b: &Buffer)
        ensures
            b@ == self@.buffer,
    {
        &self.buffer
    }
}

/// Mathematical model of a `BufferPool`: the frames in slot order and the
/// clock cursor.
pub ghost struct PoolView {
    pub frames: Seq<FrameView>,
    pub next_victim: int,
}

/// The fixed-capacity frame array and the circular "next victim" cursor;
/// owns the clock-sweep eviction algorithm. Performs no I/O.
pub struct BufferPool {
    buffers: Vec<Frame>,
    next_victim_id: BufferId,
}

impl View for BufferPool {
    type V = PoolView;

    closed spec fn view(&self) -> PoolView {
        PoolView {
            frames: self.buffers@.map_values(|f: Frame| f@),
            next_victim: self.next_victim_id.0 as int,
        }
    }
}

/// Well-formed pool state: at least one frame, and the cursor points at a
/// valid slot.
pub open spec fn pool_wf(p: PoolView) -> bool {
    &&& p.frames.len() > 0
    &&& 0 <= p.next_victim < p.frames.len()
}

impl BufferPool {
    /// Well-formed: at least one frame, and the cursor points at a valid slot.
    pub open spec fn wf(&self) -> bool {
        pool_wf(self@)
    }

    /// A pool over the given frames, cursor at slot 0. Capacity is fixed
    /// from here on.
    pub fn new(frames: Vec<Frame>) -> (pool: BufferPool)
        requires
            frames@.len() > 0,
        ensures
            pool.wf(),
            pool@.frames == frames@.map_values(|f: Frame| f@),
            pool@.next_victim == 0,
    {
        BufferPool { buffers: frames, next_victim_id: BufferId(0) }
    }

    /// The pool's capacity.
    pub fn size(&self) -> (n: usize)
        ensures
            n == self@.frames.len(),
    {
        self.buffers.len()
    }

    /// The slot after `buffer_id` in the circular scan order.
    pub fn increment_id(&self, buffer_id: BufferId) -> (r: BufferId)
        requires
            buffer_id.0 < self@.frames.len(),
        ensures
            r.0 == next_index(buffer_id.0 as int, self@.frames.len() as int),
    {
        let n = self.size();
        BufferId((buffer_id.0 + 1) % n)
    }

    /// Read access to the frame in slot `buffer_id`.
    pub fn frame(&self, buffer_id: BufferId) -> (f: &Frame)
        requires
            buffer_id.0 < self@.frames.len(),
        ensures
            f@ == self@.frames[buffer_id.0 as int],
    {
        &self.buffers[buffer_id.0]
    }

    /// Sets the usage credit of the frame in slot `buffer_id`.
    pub fn set_usage_count(&mut self, buffer_id: BufferId, count: u64)
        requires
            buffer_id.0 < old(self)@.frames.len(),
        ensures
            final(self)@.next_victim == old(self)@.next_victim,
            final(self)@.frames == old(self)@.frames.update(
                buffer_id.0 as int,
                (FrameView { usage_count: count, ..old(self)@.frames[buffer_id.0 as int] }),
            ),
    {
        self.buffers[buffer_id.0].usage_count = count;
        proof {
            assert(self@.frames =~= old(self)@.frames.update(
                buffer_id.0 as int,
                FrameView { usage_count: count, ..old(self)@.frames[buffer_id.0 as int] },
            ));
        }
    }

    /// Records one more live outside handle to the buffer in slot
    /// `buffer_id`, as when a shared handle to it is cloned.
    pub fn pin(&mut self, buffer_id: BufferId)
        requires
            buffer_id.0 < old(self)@.frames.len(),
            old(self)@.frames[buffer_id.0 as int].pin_count < u64::MAX,
        ensures
            final(self)@.next_victim == old(self)@.next_victim,
            final(self)@.frames == old(self)@.frames.update(
                buffer_id.0 as int,
                (FrameView {
                    pin_count: (old(self)@.frames[buffer_id.0 as int].pin_count + 1) as u64,
                    ..old(self)@.frames[buffer_id.0 as int]
                }),
            ),
    {
        self.buffers[buffer_id.0].pin_count = self.buffers[buffer_id.0].pin_count + 1;
        proof {
            assert(self@.frames =~= old(self)@.frames.update(
                buffer_id.0 as int,
                FrameView {
                    pin_count: (old(self)@.frames[buffer_id.0 as int].pin_count + 1) as u64,
                    ..old(self)@.frames[buffer_id.0 as int]
                },
            ));
        }
    }

    /// Releases one outside handle to the buffer in slot `buffer_id`, as
    /// when a shared handle is dropped.
    pub fn unpin(&mut self, buffer_id: BufferId)
        requires
            buffer_id.0 < old(self)@.frames.len(),
            old(self)@.frames[buffer_id.0 as int].pin_count > 0,
        ensures
            final(self)@.next_victim == old(self)@.next_victim,
            final(self)@.frames == old(self)@.frames.update(
                buffer_id.0 as int,
                (FrameView {
                    pin_count: (old(self)@.frames[buffer_id.0 as int].pin_count - 1) as u64,
                    ..old(self)@.frames[buffer_id.0 as int]
                }),
            ),
    {
        self.buffers[buffer_id.0].pin_count = self.buffers[buffer_id.0].pin_count - 1;
        proof {
            assert(self@.frames =~= old(self)@.frames.update(
                buffer_id.0 as int,
                FrameView {
                    pin_count: (old(self)@.frames[buffer_id.0 as int].pin_count - 1) as u64,
                    ..old(self)@.frames[buffer_id.0 as int]
                },
            ));
        }
    }

    /// Chooses the next victim frame by clock sweep, exactly as `sweep`
    /// describes: starting at the cursor, select the first frame whose usage
    /// credit is zero; give unpinned frames a second chance on the way; give
    /// up with `None` once every frame has been observed pinned in a row.
    /// The cursor is left on the selected slot for the caller to overwrite.
    #[verifier::loop_isolation(false)]
    pub fn evict(&mut self) -> (victim: Option<BufferId>)
        requires
            old(self).wf(),
        ensures
            final(self).wf(),
            ({
                let s = sweep(old(self)@.frames, old(self)@.next_victim, 0);
                &&& final(self)@.frames == s.1
                &&& final(self)@.next_victim == s.2
                &&& match victim {
                    Some(b) => s.0 == Some(b.0 as int),
                    None => s.0 is None,
                }
            }),
    {
        let pool_size = self.size();
        let mut consecutive_pinned: usize = 0;
        loop
            invariant
                self.wf(),
                self@.frames.len() == pool_size,
                consecutive_pinned < pool_size,
                sweep(old(self)@.frames, old(self)@.next_victim, 0) == sweep(
                    self@.frames,
                    self@.next_victim,
                    consecutive_pinned as int,
                ),
            decreases unpinned_usage_total(self@.frames), pool_size - consecutive_pinned,
        {
            proof {
                lemma_unpinned_usage_total_nonneg(self@.frames);
            }
            let next_victim_id = self.next_victim_id;
            let idx = next_victim_id.0;
            if self.buffers[idx].usage_count == 0 {
                return Some(next_victim_id);
            }
            if self.buffers[idx].pin_count == 0 {
                let ghost pre = self@.frames;
                self.buffers[idx].usage_count = self.buffers[idx].usage_count - 1;
                consecutive_pinned = 0;
                proof {
                    assert(self@.frames =~= pre.update(
                        idx as int,
                        frame_decremented(pre[idx as int]),
                    ));
                    lemma_unpinned_usage_total_update(
                        pre,
                        idx as int,
                        frame_decremented(pre[idx as int]),
                    );
                    lemma_unpinned_usage_total_nonneg(self@.frames);
                }
            } else {
                consecutive_pinned = consecutive_pinned + 1;
                if consecutive_pinned >= pool_size {
                    return None;
                }
            }
            self.next_victim_id = self.increment_id(next_victim_id);
        }
    }
}

/// Every counter has room to grow: no usage or pin count sits at the
/// machine limit. A machine-width bound, not a policy.
pub open spec fn counters_have_headroom(frames: Seq<FrameView>) -> bool {
    forall|j: int|
        0 <= j < frames.len() ==> (#[trigger] frames[j]).usage_count < u64::MAX
            && frames[j].pin_count < u64::MAX
}

/// A pinned frame always carries usage credit. The manager maintains this:
/// every handle it hands out comes with a fresh usage credit, and the sweep
/// never decrements a pinned frame. It is what keeps a pinned frame from
/// ever being selected and overwritten.
pub open spec fn pins_imply_usage(frames: Seq<FrameView>) -> bool {
    forall|j: int|
        0 <= j < frames.len() ==> (frame_pinned(#[trigger] frames[j]) ==> frames[j].usage_count
            > 0)
}

/// Law: pin respects ownership. In any state the manager maintains (where
/// pinned frames carry usage credit), a frame whose buffer has an outside
/// holder is never selected as the victim, whatever its usage credit.
pub proof fn lemma_pinned_frame_never_victim(frames: Seq<FrameView>, cursor: int, j: int)
    requires
        0 <= cursor < frames.len(),
        pins_imply_usage(frames),
        0 <= j < frames.len(),
        frame_pinned(frames[j]),
    ensures
        sweep(frames, cursor, 0).0 != Some(j),
{
    lemma_sweep_never_selects_pinned(frames, cursor, 0, j);
}

/// Page table consistency: every entry points at a valid frame, and that
/// frame's buffer currently holds exactly that entry's page.
pub open spec fn table_matches_frames(table: Map<u64, BufferId>, frames: Seq<FrameView>) -> bool {
    forall|p: u64|
        #[trigger] table.contains_key(p) ==> {
            &&& table[p].0 < frames.len()
            &&& frames[table[p].0 as int].buffer.page_id == p
        }
}

/// Law: page table consistency makes the table injective — no two resident
/// pages share a frame, since each entry's frame holds exactly that
/// entry's page.
pub proof fn lemma_page_table_injective(table: Map<u64, BufferId>, frames: Seq<FrameView>)
    requires
        table_matches_frames(table, frames),
    ensures
        forall|p: u64, q: u64|
            table.contains_key(p) && table.contains_key(q) && table[p] == table[q] ==> p == q,
{
}

/// The frame after a hit on its page: one more usage credit, one more
/// outside handle, content untouched.
pub open spec fn frame_bumped(f: FrameView) -> FrameView {
    FrameView {
        usage_count: (f.usage_count + 1) as u64,
        pin_count: (f.pin_count + 1) as u64,
        buffer: f.buffer,
    }
}

/// A frame freshly loaded with `content` for page `page_id`: one usage
/// credit, one outside handle (the one returned to the caller), clean.
pub open spec fn loaded_frame(page_id: u64, content: Seq<u8>) -> FrameView {
    FrameView {
        usage_count: 1,
        pin_count: 1,
        buffer: BufferView { page_id, page: content, is_dirty: false },
    }
}

/// Mathematical model of a `BufferPoolManager`.
pub ghost struct ManagerView {
    pub disk: Seq<Seq<u8>>,
    pub pool: PoolView,
    pub table: Map<u64, BufferId>,
}

/// The only entry point callers use: orchestrates the pool, the page table
/// (page identifier to frame index) and the disk manager, and exposes
/// `fetch_page`.
pub struct BufferPoolManager {
    disk: DiskManager,
    pool: BufferPool,
    page_table: HashMapWithView<u64, BufferId>,
}

impl View for BufferPoolManager {
    type V = ManagerView;

    closed spec fn view(&self) -> ManagerView {
        ManagerView { disk: self.disk@, pool: self.pool@, table: self.page_table@ }
    }
}

impl BufferPoolManager {
    /// Well-formed: the pool is well-formed, pinned frames carry usage
    /// credit, and the page table matches the frames.
    pub open spec fn wf(&self) -> bool {
        &&& pool_wf(self@.pool)
        &&& pins_imply_usage(self@.pool.frames)
        &&& table_matches_frames(self@.table, self@.pool.frames)
    }

    /// A manager over `disk` and `pool`, with an empty page table: no page
    /// is resident yet.
    pub fn new(disk: DiskManager, pool: BufferPool) -> (m: BufferPoolManager)
        requires
            pool.wf(),
            pins_imply_usage(pool@.frames),
        ensures
            m.wf(),
            m@.disk == disk@,
            m@.pool == pool@,
            m@.table == Map::<u64, BufferId>::empty(),
    {
        BufferPoolManager { disk, pool, page_table: HashMapWithView::<u64, BufferId>::new() }
    }

    /// Read access to the pool.
    pub fn pool(&self) -> (p: &BufferPool)
        ensures
            p@ == self@.pool,
    {
        &self.pool
    }

    /// Read access to the disk manager.
    pub fn disk(&self) -> (d: &DiskManager)
        ensures
            d@ == self@.disk,
    {
        &self.disk
    }

    /// Fetches `page_id`, pinning it for the caller: on a hit the resident
    /// frame gains a usage credit and a handle; on a miss the clock sweep
    /// picks a victim, the victim's page is flushed to disk first if dirty,
    /// the requested page is loaded in its place, and the page table swaps
    /// the evicted page's entry for the new one. The returned `BufferId` is
    /// the caller's handle: it must be released with `unpin`.
    ///
    /// Fails with `NoFreeBuffer`, changing nothing but the sweep's cursor,
    /// when every frame is pinned; fails with `Io`, committing no frame or
    /// table change, when a needed disk read or write cannot be done.
    pub fn fetch_page(&mut self, page_id: PageId) -> (r: Result<BufferId, Error>)
        requires
            old(self).wf(),
            counters_have_headroom(old(self)@.pool.frames),
        ensures
            final(self).wf(),
            old(self)@.table.contains_key(page_id.0) ==> ({
                let b = old(self)@.table[page_id.0];
                &&& r == Ok::<BufferId, Error>(b)
                &&& final(self)@.disk == old(self)@.disk
                &&& final(self)@.table == old(self)@.table
                &&& final(self)@.pool.next_victim == old(self)@.pool.next_victim
                &&& final(self)@.pool.frames == old(self)@.pool.frames.update(
                    b.0 as int,
                    frame_bumped(old(self)@.pool.frames[b.0 as int]),
                )
            }),
            !old(self)@.table.contains_key(page_id.0) ==> ({
                let s = sweep(old(self)@.pool.frames, old(self)@.pool.next_victim, 0);
                match s.0 {
                    None => {
                        &&& r == Err::<BufferId, Error>(Error::NoFreeBuffer)
                        &&& final(self)@.disk == old(self)@.disk
                        &&& final(self)@.table == old(self)@.table
                        &&& final(self)@.pool.frames == s.1
                        &&& final(self)@.pool.next_victim == s.2
                    },
                    Some(v) => ({
                        let victim = s.1[v];
                        let evicted = victim.buffer.page_id;
                        let flush_fails = victim.buffer.is_dirty && evicted
                            >= old(self)@.disk.len();
                        let flushed = if victim.buffer.is_dirty {
                            old(self)@.disk.update(evicted as int, victim.buffer.page)
                        } else {
                            old(self)@.disk
                        };
                        &&& flush_fails ==> {
                            &&& r == Err::<BufferId, Error>(Error::Io)
                            &&& final(self)@.disk == old(self)@.disk
                            &&& final(self)@.table == old(self)@.table
                            &&& final(self)@.pool.frames == s.1
                            &&& final(self)@.pool.next_victim == s.2
                        }
                        &&& (!flush_fails && page_id.0 >= old(self)@.disk.len()) ==> {
                            &&& r == Err::<BufferId, Error>(Error::Io)
                            &&& final(self)@.disk == flushed
                            &&& final(self)@.table == old(self)@.table
                            &&& final(self)@.pool.frames == s.1
                            &&& final(self)@.pool.next_victim == s.2
                        }
                        &&& (!flush_fails && page_id.0 < old(self)@.disk.len()) ==> {
                            &&& r == Ok::<BufferId, Error>(BufferId(v as usize))
                            &&& final(self)@.disk == flushed
                            &&& final(self)@.table == old(self)@.table.remove(evicted).insert(
                                page_id.0,
                                BufferId(v as usize),
                            )
                            &&& final(self)@.pool.frames == s.1.update(
                                v,
                                loaded_frame(page_id.0, flushed[page_id.0 as int]),
                            )
                            &&& final(self)@.pool.next_victim == s.2
                        }
                    }),
                }
            }),
    {
        match self.page_table.get(&page_id.0) {
            Some(b) => {
                let buffer_id = *b;
                let idx = buffer_id.0;
                let ghost pre = self@.pool.frames;
                self.pool.buffers[idx].usage_count = self.pool.buffers[idx].usage_count + 1;
                self.pool.buffers[idx].pin_count = self.pool.buffers[idx].pin_count + 1;
                proof {
                    assert(self@.pool.frames =~= pre.update(
                        idx as int,
                        frame_bumped(pre[idx as int]),
                    ));
                }
                return Ok(buffer_id);
            },
            None => {},
        }
        let ghost entry = *self;
        proof {
            lemma_sweep_frame_effects(entry@.pool.frames, entry@.pool.next_victim, 0);
        }
        let victim_id = match self.pool.evict() {
            Some(v) => v,
            None => {
                return Err(Error::NoFreeBuffer);
            },
        };
        let idx = victim_id.0;
        let evict_page_id = self.pool.buffers[idx].buffer.page_id;
        if self.pool.buffers[idx].buffer.is_dirty {
            let page_copy: Page = self.pool.buffers[idx].buffer.page;
            match self.disk.write_page_data(evict_page_id, &page_copy) {
                Ok(_) => {},
                Err(e) => {
                    return Err(e);
                },
            }
        }
        let mut data: Page = [0u8; PAGE_SIZE];
        match self.disk.read_page_data(page_id, &mut data) {
            Ok(_) => {},
            Err(e) => {
                return Err(e);
            },
        }
        let ghost pre = self@.pool.frames;
        self.pool.buffers[idx].buffer.page_id = page_id;
        self.pool.buffers[idx].buffer.page = data;
        self.pool.buffers[idx].buffer.is_dirty = false;
        self.pool.buffers[idx].usage_count = 1;
        self.pool.buffers[idx].pin_count = 1;
        proof {
            assert(self@.pool.frames =~= pre.update(
                idx as int,
                loaded_frame(page_id.0, data@),
            ));
        }
        let _ = self.page_table.remove(&evict_page_id.0);
        self.page_table.insert(page_id.0, victim_id);
        Ok(victim_id)
    }

    /// Releases one outside handle to the buffer in slot `buffer_id`, as
    /// when a caller drops a handle obtained from `fetch_page`. Once the
    /// last handle is released the frame becomes a legal eviction target.
    pub fn unpin(&mut self, buffer_id: BufferId)
        requires
            old(self).wf(),
            buffer_id.0 < old(self)@.pool.frames.len(),
            old(self)@.pool.frames[buffer_id.0 as int].pin_count > 0,
        ensures
            final(self).wf(),
            final(self)@.disk == old(self)@.disk,
            final(self)@.table == old(self)@.table,
            final(self)@.pool.next_victim == old(self)@.pool.next_victim,
            final(self)@.pool.frames == old(self)@.pool.frames.update(
                buffer_id.0 as int,
                (FrameView {
                    pin_count: (old(self)@.pool.frames[buffer_id.0 as int].pin_count - 1) as u64,
                    ..old(self)@.pool.frames[buffer_id.0 as int]
                }),
            ),
    {
        self.pool.unpin(buffer_id);
    }

    /// Marks the buffer in slot `buffer_id` as modified. Callers that write
    /// page content through their handle must set the dirty flag this way;
    /// it is what makes the eviction path flush the page before reuse.
    pub fn mark_dirty(&mut self, buffer_id: BufferId)
        requires
            old(self).wf(),
            buffer_id.0 < old(self)@.pool.frames.len(),
        ensures
            final(self).wf(),
            final(self)@.disk == old(self)@.disk,
            final(self)@.table == old(self)@.table,
            final(self)@.pool.next_victim == old(self)@.pool.next_victim,
            final(self)@.pool.frames == old(self)@.pool.frames.update(
                buffer_id.0 as int,
                (FrameView {
                    buffer: BufferView {
                        is_dirty: true,
                        ..old(self)@.pool.frames[buffer_id.0 as int].buffer
                    },
                    ..old(self)@.pool.frames[buffer_id.0 as int]
                }),
            ),
    {
        let ghost pre = self@.pool.frames;
        self.pool.buffers[buffer_id.0].buffer.is_dirty = true;
        proof {
            assert(self@.pool.frames =~= pre.update(
                buffer_id.0 as int,
                FrameView {
                    buffer: BufferView { is_dirty: true, ..pre[buffer_id.0 as int].buffer },
                    ..pre[buffer_id.0 as int]
                },
            ));
        }
    }

    /// Overwrites the byte content of the buffer in slot `buffer_id`, as a
    /// caller writing through its handle. The caller must also `mark_dirty`
    /// for the change to survive eviction.
    pub fn write_buffer(&mut self, buffer_id: BufferId, data: &Page)
        requires
            old(self).wf(),
            buffer_id.0 < old(self)@.pool.frames.len(),
        ensures
            final(self).wf(),
            final(self)@.disk == old(self)@.disk,
            final(self)@.table == old(self)@.table,
            final(self)@.pool.next_victim == old(self)@.pool.next_victim,
            final(self)@.pool.frames == old(self)@.pool.frames.update(
                buffer_id.0 as int,
                (FrameView {
                    buffer: BufferView {
                        page: data@,
                        ..old(self)@.pool.frames[buffer_id.0 as int].buffer
                    },
                    ..old(self)@.pool.frames[buffer_id.0 as int]
                }),
            ),
    {
        let ghost pre = self@.pool.frames;
        self.pool.buffers[buffer_id.0].buffer.page = *data;
        proof {
            assert(self@.pool.frames =~= pre.update(
                buffer_id.0 as int,
                FrameView {
                    buffer: BufferView { page: data@, ..pre[buffer_id.0 as int].buffer },
                    ..pre[buffer_id.0 as int]
                },
            ));
        }
    }

    /// The page table entry for `page_id`: the frame holding the page if it
    /// is resident, `None` otherwise.
    pub fn lookup(&self, page_id: PageId) -> (r: Option<BufferId>)
        ensures
            match r {
                Some(b) => self@.table.contains_key(page_id.0) && b == self@.table[page_id.0],
                None => !self@.table.contains_key(page_id.0),
            },
    {
        match self.page_table.get(&page_id.0) {
            Some(b) => Some(*b),
            None => None,
        }
    }
}

} // verus!
