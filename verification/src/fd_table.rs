//! File descriptor table: maps small integers to open file objects.
//!
//! The table is a sparse vector indexed by fd; an empty slot is a closed or
//! never-used fd.  Allocation reuses the smallest free fd and only grows the
//! table when every slot is in use.
use std::sync::Arc;
use vstd::prelude::*;

verus! {

/// A kernel file object (regular file, pipe, socket, ...).
pub trait File: Send + Sync {
    /// Read into `buf`; returns the byte count or a negative error.
    fn read(&self, buf: &mut [u8]) -> isize;

    /// Write `buf`; returns the byte count or a negative error.
    fn write(&self, buf: &[u8]) -> isize;
}

/// `Arc::clone`: a new handle to the same shared object.
#[verifier::external_body]
fn share<T: ?Sized>(obj: &Arc<T>) -> (r: Arc<T>)
    ensures
        r == *obj,
{
    Arc::clone(obj)
}

/// `fd` is the smallest free fd of `slots`, or `slots.len()` when every slot
/// is in use.
pub open spec fn is_lowest_free<F: ?Sized>(slots: Seq<Option<Arc<F>>>, fd: int) -> bool {
    &&& 0 <= fd <= slots.len()
    &&& forall|j: int| 0 <= j < fd ==> slots[j] is Some
    &&& fd < slots.len() ==> slots[fd] is None
}

/// `after` is `before` with `file` installed under `fd`, the smallest free fd
/// (the table grows by one slot when none is free).
pub open spec fn alloc_post<F: ?Sized>(
    before: Seq<Option<Arc<F>>>,
    file: Arc<F>,
    fd: int,
    after: Seq<Option<Arc<F>>>,
) -> bool {
    &&& is_lowest_free(before, fd)
    &&& after == if fd < before.len() {
        before.update(fd, Some(file))
    } else {
        before.push(Some(file))
    }
}

/// The file open under `fd`, `None` when `fd` is closed or out of range.
pub open spec fn file_at<F: ?Sized>(slots: Seq<Option<Arc<F>>>, fd: int) -> Option<Arc<F>> {
    if 0 <= fd < slots.len() {
        slots[fd]
    } else {
        None
    }
}

/// Number of open fds in `slots`.
pub open spec fn open_count<F: ?Sized>(slots: Seq<Option<Arc<F>>>) -> nat
    decreases slots.len(),
{
    if slots.len() == 0 {
        0
    } else {
        (if slots.last() is Some { 1nat } else { 0nat }) + open_count(slots.drop_last())
    }
}

/// File descriptor table.
///
/// Generic over the object type so that the same table logic serves any
/// file type; the default is the trait object `dyn File`.
pub struct FdTable<F: ?Sized = dyn File> {
    entries: Vec<Option<Arc<F>>>,
}

impl<F: ?Sized> View for FdTable<F> {
    type V = Seq<Option<Arc<F>>>;

    /// Slot `fd` holds the file open under `fd`, or `None`.
    closed spec fn view(&self) -> Seq<Option<Arc<F>>> {
        self.entries@
    }
}

impl FdTable {
    /// An empty table.
    pub fn new() -> (t: Self)
        ensures
            t@ == Seq::<Option<Arc<dyn File>>>::empty(),
    {
        Self { entries: Vec::new() }
    }
}

impl<F: ?Sized> FdTable<F> {
    /// Install `file` under the smallest free fd and return that fd.
    pub fn alloc_fd(&mut self, file: Arc<F>) -> (fd: usize)
        requires
            old(self)@.len() < usize::MAX,
        ensures
            alloc_post(old(self)@, file, fd as int, final(self)@),
    {
        let mut i: usize = 0;
        while i < self.entries.len()
            invariant
                i <= self.entries@.len(),
                self@ == old(self)@,
                forall|j: int| 0 <= j < i ==> self@[j] is Some,
            decreases self.entries@.len() - i,
        {
            if self.entries[i].is_none() {
                self.entries.set(i, Some(file));
                return i;
            }
            i += 1;
        }
        let fd = self.entries.len();
        self.entries.push(Some(file));
        fd
    }

    /// The file open under `fd`, if any (a new handle to the same object).
    pub fn get(&self, fd: usize) -> (r: Option<Arc<F>>)
        ensures
            r == file_at(self@, fd as int),
    {
        if fd < self.entries.len() {
            match &self.entries[fd] {
                Some(f) => Some(share(f)),
                None => None,
            }
        } else {
            None
        }
    }

    /// Close `fd`; false when it is not open.
    pub fn close(&mut self, fd: usize) -> (closed: bool)
        ensures
            closed == (file_at(old(self)@, fd as int) is Some),
            final(self)@ == if closed {
                old(self)@.update(fd as int, None)
            } else {
                old(self)@
            },
    {
        if fd < self.entries.len() {
            if self.entries[fd].is_some() {
                self.entries.set(fd, None);
                return true;
            }
        }
        false
    }

    /// The number of open fds.
    pub fn count(&self) -> (n: usize)
        ensures
            n == open_count(self@),
    {
        let mut n: usize = 0;
        let mut i: usize = 0;
        while i < self.entries.len()
            invariant
                i <= self.entries@.len(),
                n == open_count(self@.take(i as int)),
                n <= i,
            decreases self.entries@.len() - i,
        {
            assert(self@.take(i as int + 1).drop_last() =~= self@.take(i as int));
            if self.entries[i].is_some() {
                n += 1;
            }
            i += 1;
        }
        assert(self@.take(i as int) =~= self@);
        n
    }
}

impl Default for FdTable {
    fn default() -> (t: Self)
        ensures
            t@ == Seq::<Option<Arc<dyn File>>>::empty(),
    {
        Self::new()
    }
}

/// Changing one slot changes the open count by what left and what came.
proof fn lemma_open_count_update<F: ?Sized>(
    slots: Seq<Option<Arc<F>>>,
    i: int,
    v: Option<Arc<F>>,
)
    requires
        0 <= i < slots.len(),
    ensures
        open_count(slots.update(i, v)) + (if slots[i] is Some { 1int } else { 0int })
            == open_count(slots) + (if v is Some { 1int } else { 0int }),
    decreases slots.len(),
{
    let u = slots.update(i, v);
    if i == slots.len() - 1 {
        assert(u.drop_last() =~= slots.drop_last());
    } else {
        assert(u.drop_last() =~= slots.drop_last().update(i, v));
        lemma_open_count_update(slots.drop_last(), i, v);
    }
}

/// An allocated fd holds the new file, and the open count grows by one.
pub proof fn law_alloc_installs_file<F: ?Sized>(
    before: Seq<Option<Arc<F>>>,
    file: Arc<F>,
    fd: int,
    after: Seq<Option<Arc<F>>>,
)
    requires
        alloc_post(before, file, fd, after),
    ensures
        file_at(after, fd) == Some(file),
        open_count(after) == open_count(before) + 1,
        forall|j: int| j != fd ==> file_at(after, j) == file_at(before, j),
{
    if fd < before.len() {
        lemma_open_count_update(before, fd, Some(file));
    } else {
        assert(after.drop_last() =~= before);
    }
}

/// Allocation reuses the smallest free fd: after closing the open fd `fd`
/// on a table whose fds below `fd` are all open, the next allocation
/// returns `fd` again.
pub proof fn law_alloc_reuses_closed_fd<F: ?Sized>(
    slots: Seq<Option<Arc<F>>>,
    fd: int,
    file: Arc<F>,
    fd2: int,
    after: Seq<Option<Arc<F>>>,
)
    requires
        0 <= fd < slots.len(),
        forall|j: int| 0 <= j < fd ==> slots[j] is Some,
        alloc_post(slots.update(fd, None), file, fd2, after),
    ensures
        fd2 == fd,
{
    let closed = slots.update(fd, None);
    if fd2 < fd {
        assert(closed[fd2] is Some);
    }
    if fd2 > fd {
        assert(closed[fd] is Some);
    }
}

/// Closing an open fd empties it and lowers the open count by one; closing
/// anything else changes nothing.
pub proof fn law_close_releases_fd<F: ?Sized>(slots: Seq<Option<Arc<F>>>, fd: int)
    ensures
        file_at(slots, fd) is Some ==> {
            &&& file_at(slots.update(fd, None), fd) is None
            &&& open_count(slots.update(fd, None)) + 1 == open_count(slots)
        },
{
    if file_at(slots, fd) is Some {
        lemma_open_count_update(slots, fd, None);
    }
}

/// The open count never exceeds the table size.
pub proof fn law_open_count_bounded<F: ?Sized>(slots: Seq<Option<Arc<F>>>)
    ensures
        open_count(slots) <= slots.len(),
    decreases slots.len(),
{
    if slots.len() > 0 {
        law_open_count_bounded(slots.drop_last());
    }
}

/// One step in the life of a table: `fd` was handed out for a file, or
/// `fd` was closed.
pub enum FdEvent<F: ?Sized> {
    Opened(usize, Arc<F>),
    Closed(usize),
}

/// The table after one event.
pub open spec fn apply_event<F: ?Sized>(slots: Seq<Option<Arc<F>>>, e: FdEvent<F>) -> Seq<
    Option<Arc<F>>,
> {
    match e {
        FdEvent::Opened(fd, file) => if fd < slots.len() {
            slots.update(fd as int, Some(file))
        } else {
            slots.push(Some(file))
        },
        FdEvent::Closed(fd) => if fd < slots.len() {
            slots.update(fd as int, None)
        } else {
            slots
        },
    }
}

/// The table a history of events leaves, starting from an empty table.
pub open spec fn replay<F: ?Sized>(events: Seq<FdEvent<F>>) -> Seq<Option<Arc<F>>>
    decreases events.len(),
{
    if events.len() == 0 {
        Seq::empty()
    } else {
        apply_event(replay(events.drop_last()), events.last())
    }
}

/// Every fd in the history was handed out as `alloc_fd` hands it out: the
/// smallest free fd of the table at that point.
pub open spec fn feasible<F: ?Sized>(events: Seq<FdEvent<F>>) -> bool
    decreases events.len(),
{
    if events.len() == 0 {
        true
    } else {
        &&& feasible(events.drop_last())
        &&& match events.last() {
            FdEvent::Opened(fd, _) => is_lowest_free(replay(events.drop_last()), fd as int),
            FdEvent::Closed(_) => true,
        }
    }
}

/// The file that the last event on `fd` opened, `None` when `fd` was never
/// opened or its last event closed it.
pub open spec fn last_open<F: ?Sized>(events: Seq<FdEvent<F>>, fd: int) -> Option<Arc<F>>
    decreases events.len(),
{
    if events.len() == 0 {
        None
    } else {
        match events.last() {
            FdEvent::Opened(g, file) => if g == fd {
                Some(file)
            } else {
                last_open(events.drop_last(), fd)
            },
            FdEvent::Closed(g) => if g == fd {
                None
            } else {
                last_open(events.drop_last(), fd)
            },
        }
    }
}

/// `alloc_fd` is the `Opened` event for the fd it returns, and that fd is
/// the smallest free one.
pub proof fn law_alloc_is_event<F: ?Sized>(
    before: Seq<Option<Arc<F>>>,
    file: Arc<F>,
    fd: usize,
    after: Seq<Option<Arc<F>>>,
)
    requires
        alloc_post(before, file, fd as int, after),
    ensures
        after == apply_event(before, FdEvent::Opened(fd, file)),
        is_lowest_free(before, fd as int),
{
}

/// `close` is the `Closed` event for its fd (on a closed or unknown fd it
/// changes nothing, as the event does not either).
pub proof fn law_close_is_event<F: ?Sized>(
    before: Seq<Option<Arc<F>>>,
    fd: usize,
    after: Seq<Option<Arc<F>>>,
)
    requires
        after == if file_at(before, fd as int) is Some {
            before.update(fd as int, None)
        } else {
            before
        },
    ensures
        after == apply_event(before, FdEvent::<F>::Closed(fd)),
{
    if fd < before.len() && file_at(before, fd as int) is None {
        assert(before.update(fd as int, None) =~= before);
    }
}

/// What `get` returns after any history of allocations and closes: the file
/// the last event on that fd opened, or `None` when there was none or the
/// fd was closed afterwards.
pub proof fn law_get_follows_history<F: ?Sized>(events: Seq<FdEvent<F>>, fd: int)
    requires
        feasible(events),
    ensures
        file_at(replay(events), fd) == last_open(events, fd),
    decreases events.len(),
{
    if events.len() > 0 {
        let prefix = events.drop_last();
        law_get_follows_history(prefix, fd);
        let before = replay(prefix);
        match events.last() {
            FdEvent::Opened(g, file) => {
                assert(is_lowest_free(before, g as int));
            },
            FdEvent::Closed(g) => {},
        }
    }
}

} // verus!
