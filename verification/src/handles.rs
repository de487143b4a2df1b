//! Handles: numbers that stand for threads, sockets, files and processes, each of
//! which ends once.
use vstd::prelude::*;

verus! {

/// What the handles of one kind stand for. A handle that has ended stays known, so
/// that its number is never given out again.
#[derive(Debug)]
pub struct Handles<T> {
    pub slots: Vec<Option<T>>,
}

impl<T> View for Handles<T> {
    type V = Seq<Option<T>>;

    open spec fn view(&self) -> Seq<Option<T>> {
        self.slots@
    }
}

/// What a handle stands for, while it is open.
pub open spec fn held<T>(s: Seq<Option<T>>, h: u64) -> Option<T> {
    if h < s.len() {
        s[h as int]
    } else {
        None
    }
}

/// The handles after `h` has ended.
pub open spec fn ended<T>(s: Seq<Option<T>>, h: u64) -> Seq<Option<T>> {
    if h < s.len() {
        s.update(h as int, None)
    } else {
        s
    }
}

impl<T> Handles<T> {
    pub fn new() -> (r: Self)
        ensures
            r@ == Seq::<Option<T>>::empty(),
    {
        Handles { slots: Vec::new() }
    }

    /// A new handle for `x`.
    pub fn keep(&mut self, x: T) -> (h: u64)
        ensures
            h == old(self)@.len(),
            final(self)@ == old(self)@.push(Some(x)),
    {
        let h = self.slots.len() as u64;
        self.slots.push(Some(x));
        h
    }

    /// What `h` stands for, while it is open.
    pub fn get(&self, h: u64) -> (r: Option<&T>)
        ensures
            match r {
                Some(x) => held(self@, h) == Some(*x),
                None => held(self@, h) is None,
            },
    {
        if h < self.slots.len() as u64 {
            match &self.slots[h as usize] {
                Some(x) => Some(x),
                None => None,
            }
        } else {
            None
        }
    }

    /// Ends `h`, and hands over what it stood for.
    pub fn take(&mut self, h: u64) -> (r: Option<T>)
        ensures
            r == held(old(self)@, h),
            final(self)@ == ended(old(self)@, h),
    {
        if h < self.slots.len() as u64 {
            self.slots.push(None);
            let x = self.slots.swap_remove(h as usize);
            proof {
                assert(self.slots@ =~= ended(old(self)@, h));
            }
            x
        } else {
            None
        }
    }
}

/// What is done with the handles of one kind.
pub ghost enum Use<T> {
    Keep(T),
    Take(u64),
}

pub open spec fn used<T>(s: Seq<Option<T>>, u: Use<T>) -> Seq<Option<T>> {
    match u {
        Use::Keep(x) => s.push(Some(x)),
        Use::Take(h) => ended(s, h),
    }
}

pub open spec fn used_all<T>(s: Seq<Option<T>>, us: Seq<Use<T>>) -> Seq<Option<T>>
    decreases us.len(),
{
    if us.len() == 0 {
        s
    } else {
        used(used_all(s, us.drop_last()), us.last())
    }
}

/// Each handle ends once: whatever is done after `h` has ended, it stands for
/// nothing.
pub proof fn handles_end_once<T>(s: Seq<Option<T>>, h: u64, us: Seq<Use<T>>)
    requires
        h < s.len(),
    ensures
        held(used_all(ended(s, h), us), h) is None,
        used_all(ended(s, h), us).len() >= s.len(),
    decreases us.len(),
{
    if us.len() > 0 {
        handles_end_once(s, h, us.drop_last());
    }
}

/// Ending one handle leaves the others as they are.
pub proof fn handles_are_apart<T>(s: Seq<Option<T>>, h: u64, g: u64)
    requires
        g != h,
    ensures
        held(ended(s, h), g) == held(s, g),
{
}

} // verus!
