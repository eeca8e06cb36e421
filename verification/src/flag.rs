//! The flag that checks of several chunks share, to tell each other of a mismatch.
//!
//! Each check holds the flag in the private field of a [`SharedFlag`] of its own, which keeps a log
//! of every use that this check makes of it.

use std::sync::atomic::{AtomicBool, Ordering};
use vstd::prelude::*;

use crate::call::{call_with_three, call_with_two};

verus! {

/// The value is what a relaxed load of `flag` can give.
pub open spec fn can_be_loaded(flag: &AtomicBool, value: bool) -> bool {
    call_ensures(AtomicBool::load, (flag, Ordering::Relaxed), value)
}

/// What holds after a relaxed store of `value` in `flag`.
pub open spec fn is_stored(flag: &AtomicBool, value: bool) -> bool {
    call_ensures(AtomicBool::store, (flag, value, Ordering::Relaxed), ())
}

/// One use of a flag.
pub enum FlagTouch {
    /// The flag was read, with this result.
    Read { value: bool },
    /// This value was stored in the flag.
    Stored { value: bool },
}

/// A flag that others may hold too, with a log of the uses made through this handle.
pub struct SharedFlag<'a> {
    flag: &'a AtomicBool,
    log: Ghost<Seq<FlagTouch>>,
}

impl<'a> SharedFlag<'a> {
    /// The flag itself.
    pub closed spec fn target(&self) -> &'a AtomicBool {
        self.flag
    }

    /// Every use that was made of the flag through this handle, in order.
    pub closed spec fn touches(&self) -> Seq<FlagTouch> {
        self.log@
    }

    /// A handle on the given flag that has not been used. Making it does not use the flag either: a
    /// use may unwind, and this does not.
    pub fn new(flag: &'a AtomicBool) -> (handle: SharedFlag<'a>)
        ensures
            handle.target() == flag,
            handle.touches() == Seq::<FlagTouch>::empty(),
        opens_invariants none
        no_unwind
    {
        SharedFlag { flag, log: Ghost(Seq::empty()) }
    }

    /// Reads the flag, once.
    pub fn is_up(&mut self) -> (value: bool)
        ensures
            final(self).target() == old(self).target(),
            final(self).touches() == old(self).touches().push(FlagTouch::Read { value }),
            can_be_loaded(old(self).target(), value),
    {
        let value: bool = call_with_two(AtomicBool::load, self.flag, Ordering::Relaxed);
        self.log = Ghost(self.log@.push(FlagTouch::Read { value }));
        value
    }

    /// Raises the flag.
    pub fn raise(&mut self)
        ensures
            final(self).target() == old(self).target(),
            final(self).touches() == old(self).touches().push(FlagTouch::Stored { value: true }),
            is_stored(old(self).target(), true),
    {
        call_with_three(AtomicBool::store, self.flag, true, Ordering::Relaxed);
        self.log = Ghost(self.log@.push(FlagTouch::Stored { value: true }));
    }
}

/// The uses of one flag by several holders, in an order in which they can have come about: each
/// entry says which holder it is of, and what the use was.
pub type FlagHistory = Seq<(int, FlagTouch)>;

/// What one holder did in a history.
pub open spec fn touches_by(history: FlagHistory, holder: int) -> Seq<FlagTouch>
    decreases history.len(),
{
    if history.len() == 0 {
        Seq::empty()
    } else if history.last().0 == holder {
        touches_by(history.drop_last(), holder).push(history.last().1)
    } else {
        touches_by(history.drop_last(), holder)
    }
}

/// What a flag that held `initial` holds after a history: what was stored last.
pub open spec fn value_after(initial: bool, history: FlagHistory) -> bool
    decreases history.len(),
{
    if history.len() == 0 {
        initial
    } else {
        match history.last().1 {
            FlagTouch::Stored { value } => value,
            FlagTouch::Read { .. } => value_after(initial, history.drop_last()),
        }
    }
}

/// The history can be one of a flag that held `initial`: what is read was there at first or was
/// stored before. It need not be what was stored last, since a relaxed read may be late to see it.
pub open spec fn is_history_of_flag(initial: bool, history: FlagHistory) -> bool {
    forall|p: int|
        0 <= p < history.len() ==> ((#[trigger] history[p]).1 matches FlagTouch::Read { value }
            ==> value == initial || stored_before(history, p, value))
}

/// The value was stored before entry `p` of the history.
pub open spec fn stored_before(history: FlagHistory, p: int, value: bool) -> bool {
    exists|q: int| 0 <= q < p && (#[trigger] history[q]).1 == (FlagTouch::Stored { value })
}

/// What stands in a history is what its holder did, and what a holder did stands in the history.
pub proof fn history_holds_what_was_done(history: FlagHistory, holder: int, touch: FlagTouch)
    ensures
        touches_by(history, holder).contains(touch) <==> history.contains((holder, touch)),
    decreases history.len(),
{
    if history.len() > 0 {
        let front = history.drop_last();
        let before = touches_by(front, holder);
        history_holds_what_was_done(front, holder, touch);
        if history.contains((holder, touch)) {
            let p = choose|p: int| 0 <= p < history.len() && history[p] == (holder, touch);
            if p < front.len() {
                assert(front[p] == (holder, touch));
                let i = choose|i: int| 0 <= i < before.len() && before[i] == touch;
                assert(touches_by(history, holder)[i] == touch);
            } else {
                assert(touches_by(history, holder).last() == touch);
            }
        }
        if touches_by(history, holder).contains(touch) {
            let done = touches_by(history, holder);
            let i = choose|i: int| 0 <= i < done.len() && done[i] == touch;
            if i < before.len() {
                assert(before[i] == touch);
                let p = choose|p: int| 0 <= p < front.len() && front[p] == (holder, touch);
                assert(history[p] == (holder, touch));
            } else {
                assert(history.last() == (holder, touch));
            }
        }
    }
}

/// A flag in which nothing but `true` is ever stored is up in the end exactly if it was up at first
/// or was raised. It never goes down.
pub proof fn flag_is_up_once_raised(initial: bool, history: FlagHistory)
    requires
        forall|p: int|
            0 <= p < history.len() ==> (#[trigger] history[p]).1 != (FlagTouch::Stored {
                value: false,
            }),
    ensures
        value_after(initial, history) <==> initial || stored_before(
            history,
            history.len() as int,
            true,
        ),
    decreases history.len(),
{
    if history.len() > 0 {
        let front = history.drop_last();
        let last = history.len() - 1;
        assert forall|p: int| 0 <= p < front.len() implies (#[trigger] front[p]).1 != (
        FlagTouch::Stored { value: false }) by {
            assert(front[p] == history[p]);
        }
        flag_is_up_once_raised(initial, front);
        assert(history[last].1 != (FlagTouch::Stored { value: false }));
        if stored_before(front, last, true) {
            let q = choose|q: int|
                0 <= q < last && (#[trigger] front[q]).1 == (FlagTouch::Stored { value: true });
            assert(history[q].1 == (FlagTouch::Stored { value: true }));
        }
        if stored_before(history, last + 1, true) && history[last].1 is Read {
            let q = choose|q: int|
                0 <= q < last + 1 && (#[trigger] history[q]).1 == (FlagTouch::Stored {
                    value: true,
                });
            assert(front[q].1 == (FlagTouch::Stored { value: true }));
        }
    }
}

} // verus!
