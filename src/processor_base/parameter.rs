use vstd::prelude::*;

verus! {

/// A value type that a `Parameter` can hold: a total order given by `rank`.
pub trait ParameterTypeTrait: Copy + Ord + core::fmt::Debug {
    /// The position of the value in the order of its type.
    spec fn rank(&self) -> int;

    fn less_than(&self, other: &Self) -> (r: bool)
        ensures
            r == (self.rank() < other.rank()),
    ;

    fn same_as(&self, other: &Self) -> (r: bool)
        ensures
            r == (*self == *other),
    ;
}

impl ParameterTypeTrait for u8 {
    open spec fn rank(&self) -> int {
        *self as int
    }

    fn less_than(&self, other: &Self) -> (r: bool) {
        *self < *other
    }

    fn same_as(&self, other: &Self) -> (r: bool) {
        *self == *other
    }
}

impl ParameterTypeTrait for u16 {
    open spec fn rank(&self) -> int {
        *self as int
    }

    fn less_than(&self, other: &Self) -> (r: bool) {
        *self < *other
    }

    fn same_as(&self, other: &Self) -> (r: bool) {
        *self == *other
    }
}

impl ParameterTypeTrait for u32 {
    open spec fn rank(&self) -> int {
        *self as int
    }

    fn less_than(&self, other: &Self) -> (r: bool) {
        *self < *other
    }

    fn same_as(&self, other: &Self) -> (r: bool) {
        *self == *other
    }
}

impl ParameterTypeTrait for u64 {
    open spec fn rank(&self) -> int {
        *self as int
    }

    fn less_than(&self, other: &Self) -> (r: bool) {
        *self < *other
    }

    fn same_as(&self, other: &Self) -> (r: bool) {
        *self == *other
    }
}

impl ParameterTypeTrait for usize {
    open spec fn rank(&self) -> int {
        *self as int
    }

    fn less_than(&self, other: &Self) -> (r: bool) {
        *self < *other
    }

    fn same_as(&self, other: &Self) -> (r: bool) {
        *self == *other
    }
}

impl ParameterTypeTrait for i8 {
    open spec fn rank(&self) -> int {
        *self as int
    }

    fn less_than(&self, other: &Self) -> (r: bool) {
        *self < *other
    }

    fn same_as(&self, other: &Self) -> (r: bool) {
        *self == *other
    }
}

impl ParameterTypeTrait for i16 {
    open spec fn rank(&self) -> int {
        *self as int
    }

    fn less_than(&self, other: &Self) -> (r: bool) {
        *self < *other
    }

    fn same_as(&self, other: &Self) -> (r: bool) {
        *self == *other
    }
}

impl ParameterTypeTrait for i32 {
    open spec fn rank(&self) -> int {
        *self as int
    }

    fn less_than(&self, other: &Self) -> (r: bool) {
        *self < *other
    }

    fn same_as(&self, other: &Self) -> (r: bool) {
        *self == *other
    }
}

impl ParameterTypeTrait for i64 {
    open spec fn rank(&self) -> int {
        *self as int
    }

    fn less_than(&self, other: &Self) -> (r: bool) {
        *self < *other
    }

    fn same_as(&self, other: &Self) -> (r: bool) {
        *self == *other
    }
}

impl ParameterTypeTrait for isize {
    open spec fn rank(&self) -> int {
        *self as int
    }

    fn less_than(&self, other: &Self) -> (r: bool) {
        *self < *other
    }

    fn same_as(&self, other: &Self) -> (r: bool) {
        *self == *other
    }
}

/// What a parameter can be compared and copied as.
pub trait ParameterTrait: Sized + Clone + PartialEq + Eq + PartialOrd + Ord {

}

/// Why `Parameter::set_next_value` refused a value.
#[derive(Clone, Copy, Debug, PartialEq, Eq, Structural)]
pub enum ParameterError {
    /// The value lies below the minimum or above the maximum.
    OutOfLimits,
    /// The value is not one of the allowed values.
    NotAllowed,
}

/// A named configuration value with optional bounds and an optional set of
/// allowed values. A change is staged with `set_next_value` and takes effect
/// with `update_value`, so a running block sees stable values for a whole
/// cycle.
#[derive(Clone, Debug, PartialEq, Eq, PartialOrd, Ord)]
pub struct Parameter<T: ParameterTypeTrait> {
    pub name: String,
    pub description: String,
    pub current_value: T,
    pub next_value: T,
    pub min_value: Option<T>,
    pub max_value: Option<T>,
    pub allowed_values: Option<Vec<T>>,
}

impl<T: ParameterTypeTrait> ParameterTrait for Parameter<T> {

}

impl<T: ParameterTypeTrait> Parameter<T> {
    /// `value` lies within the minimum and the maximum, where they are set.
    pub open spec fn within_limits(&self, value: T) -> bool {
        &&& (self.min_value matches Some(lo) ==> lo.rank() <= value.rank())
        &&& (self.max_value matches Some(hi) ==> value.rank() <= hi.rank())
    }

    /// `value` is one of the allowed values, where a set of them is given.
    pub open spec fn is_allowed(&self, value: T) -> bool {
        self.allowed_values matches Some(vs) ==> vs@.contains(value)
    }

    /// What `set_next_value(value)` returns.
    pub open spec fn set_next_outcome(&self, value: T) -> Result<(), ParameterError> {
        if !self.within_limits(value) {
            Err(ParameterError::OutOfLimits)
        } else if !self.is_allowed(value) {
            Err(ParameterError::NotAllowed)
        } else {
            Ok(())
        }
    }

    /// The parameter after `set_next_value(value)`.
    pub open spec fn after_set_next(self, value: T) -> Self {
        if self.set_next_outcome(value) is Ok {
            Parameter { next_value: value, ..self }
        } else {
            self
        }
    }

    /// The parameter after `update_value()`.
    pub open spec fn after_update(self) -> Self {
        Parameter { current_value: self.next_value, ..self }
    }

    pub fn new(
        name: String,
        description: String,
        current_value: T,
        min_value: Option<T>,
        max_value: Option<T>,
        allowed_values: Option<Vec<T>>,
    ) -> (r: Self)
        ensures
            r.name@ == name@,
            r.description@ == description@,
            r.current_value == current_value,
            r.next_value == current_value,
            r.min_value == min_value,
            r.max_value == max_value,
            r.allowed_values == allowed_values,
    {
        Parameter {
            name,
            description,
            current_value,
            next_value: current_value,
            min_value,
            max_value,
            allowed_values,
        }
    }

    /// Stages `value` as the next value. A value outside the limits, or not
    /// among the allowed values, is refused and nothing changes.
    pub fn set_next_value(&mut self, value: T) -> (r: Result<(), ParameterError>)
        ensures
            r == old(self).set_next_outcome(value),
            *final(self) == old(self).after_set_next(value),
    {
        if !self.check_limits(value) {
            return Err(ParameterError::OutOfLimits);
        }
        if !self.check_allowed_values(value) {
            return Err(ParameterError::NotAllowed);
        }
        self.next_value = value;
        Ok(())
    }

    /// Makes the staged value the current one.
    pub fn update_value(&mut self)
        ensures
            *final(self) == old(self).after_update(),
    {
        self.current_value = self.next_value;
    }

    pub fn check_limits(&self, value: T) -> (r: bool)
        ensures
            r == self.within_limits(value),
    {
        if let Some(min_value) = &self.min_value {
            if value.less_than(min_value) {
                return false;
            }
        }
        if let Some(max_value) = &self.max_value {
            if max_value.less_than(&value) {
                return false;
            }
        }
        true
    }

    pub fn check_allowed_values(&self, value: T) -> (r: bool)
        ensures
            r == self.is_allowed(value),
    {
        if let Some(allowed_values) = &self.allowed_values {
            let mut i: usize = 0;
            while i < allowed_values.len()
                invariant
                    self.allowed_values == Some(*allowed_values),
                    i <= allowed_values@.len(),
                    forall|j: int| 0 <= j < i ==> #[trigger] allowed_values@[j] != value,
                decreases allowed_values@.len() - i,
            {
                if allowed_values[i].same_as(&value) {
                    assert(self.allowed_values->0@[i as int] == value);
                    return true;
                }
                i += 1;
            }
            false
        } else {
            true
        }
    }

    pub fn get_current_value(&self) -> (r: &T)
        ensures
            *r == self.current_value,
    {
        &self.current_value
    }
}

/// Two-phase commit: a value that `set_next_value` refuses leaves the
/// parameter untouched, one it accepts changes only the staged value, and the
/// following `update_value` makes exactly that value current.
pub proof fn law_two_phase_commit<T: ParameterTypeTrait>(p: Parameter<T>, value: T)
    ensures
        !(p.within_limits(value) && p.is_allowed(value)) ==> p.set_next_outcome(value) is Err
            && p.after_set_next(value) == p,
        p.within_limits(value) && p.is_allowed(value) ==> {
            let staged = p.after_set_next(value);
            &&& p.set_next_outcome(value) is Ok
            &&& staged.current_value == p.current_value
            &&& staged.next_value == value
            &&& staged.after_update().current_value == value
        },
{
}

} // verus!
