use vstd::prelude::*;

verus! {

/// Addition that reports, rather than wraps, a result outside the range of `usize`.
pub trait TryAdd<Rhs>: Sized {
    type Output;

    spec fn try_add_spec(self, rhs: Rhs) -> Self::Output;

    fn try_add(self, rhs: Rhs) -> (r: Self::Output)
        ensures
            r == self.try_add_spec(rhs),
    ;
}

/// The sum `base + off` when it lies within `usize`, else `None`.
pub open spec fn offset_sum(base: int, off: int) -> Option<usize> {
    let sum = base + off;
    if 0 <= sum <= usize::MAX {
        Some(sum as usize)
    } else {
        None
    }
}

impl TryAdd<usize> for usize {
    type Output = Option<usize>;

    open spec fn try_add_spec(self, rhs: usize) -> Option<usize> {
        offset_sum(self as int, rhs as int)
    }

    fn try_add(self, rhs: usize) -> (r: Option<usize>) {
        self.checked_add(rhs)
    }
}

impl TryAdd<isize> for usize {
    type Output = Option<usize>;

    open spec fn try_add_spec(self, rhs: isize) -> Option<usize> {
        offset_sum(self as int, rhs as int)
    }

    fn try_add(self, rhs: isize) -> (r: Option<usize>) {
        let unsigned_rhs: usize = if rhs == isize::MIN {
            (isize::MAX as usize) + 1
        } else if rhs < 0 {
            (-rhs) as usize
        } else {
            rhs as usize
        };
        if rhs > 0 {
            self.checked_add(unsigned_rhs)
        } else {
            self.checked_sub(unsigned_rhs)
        }
    }
}

} // verus!
