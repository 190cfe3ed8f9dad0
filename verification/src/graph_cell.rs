use vstd::prelude::*;

verus! {

/// The borrow count of a cell that is borrowed mutably.
pub const WRITING: usize = usize::MAX;

/// Takes an immutable borrow: one more reader. Taking it while the mutable
/// borrow is active is a panic, which the `requires` leaves out.
pub fn acquire_for_read(borrow_count: &mut usize)
    requires
        *old(borrow_count) != WRITING,
    ensures
        *final(borrow_count) == *old(borrow_count) + 1,
{
    let c = *borrow_count;
    *borrow_count = c + 1;
}

/// Takes the mutable borrow. Taking it while any other borrow is active is
/// a panic, which the `requires` leaves out.
pub fn acquire_for_write(borrow_count: &mut usize)
    requires
        *old(borrow_count) == 0,
    ensures
        *final(borrow_count) == WRITING,
{
    *borrow_count = WRITING;
}

/// Whether an immutable borrow can be taken at this count.
pub open spec fn can_read(count: usize) -> bool {
    count != WRITING
}

/// Whether the mutable borrow can be taken at this count.
pub open spec fn can_write(count: usize) -> bool {
    count == 0
}

/// A mutable borrow excludes every other borrow: once it is taken, neither
/// an immutable nor a second mutable borrow can be, and while any immutable
/// borrow is held, the mutable one cannot be taken.
pub proof fn lemma_write_excludes_others(count: usize)
    ensures
        can_write(count) ==> !can_read(WRITING) && !can_write(WRITING),
        (count != 0 && count != WRITING) ==> !can_write(count),
{
}

/// A value with a borrow count that tracks the borrows of it.
pub struct GraphCell<T> {
    borrow_count: usize,
    data: T,
}

impl<T> GraphCell<T> {
    pub closed spec fn count(&self) -> usize {
        self.borrow_count
    }

    pub closed spec fn data(&self) -> T {
        self.data
    }

    /// A cell holding `data`, with no borrows.
    pub fn new(data: T) -> (r: Self)
        ensures
            r.count() == 0,
            r.data() == data,
    {
        GraphCell { borrow_count: 0, data }
    }
}

} // verus!
