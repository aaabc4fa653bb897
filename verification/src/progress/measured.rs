//! A number and whether it could be worked out: only an unavailable number carries no value,
//! and only its constructor refuses to take one.
use vstd::prelude::*;

verus! {

/// What is known about a number.
#[derive(Debug, Clone, Copy, PartialEq, Eq, Structural)]
pub enum MeasuredStatus {
    Known,
    Stale,
    Partial,
    Unavailable,
}

/// A number and how far it can be trusted. The fields are private and the constructors are
/// the only way in, so "known but empty" cannot be built.
#[derive(Debug)]
pub struct Measured<T> {
    value: Option<T>,
    status: MeasuredStatus,
    as_of_ms: Option<u64>,
    reason: Option<String>,
}

impl<T> Measured<T> {
    #[verifier::type_invariant]
    spec fn well_formed(self) -> bool {
        &&& (self.status == MeasuredStatus::Unavailable) == (self.value is None)
        &&& (self.status == MeasuredStatus::Unavailable) == (self.as_of_ms is None)
        &&& (self.status == MeasuredStatus::Known) == (self.reason is None)
    }

    pub closed spec fn value_spec(&self) -> Option<T> {
        self.value
    }

    pub closed spec fn status_spec(&self) -> MeasuredStatus {
        self.status
    }

    pub closed spec fn as_of_spec(&self) -> Option<u64> {
        self.as_of_ms
    }

    pub closed spec fn reason_spec(&self) -> Option<Seq<char>> {
        match self.reason {
            Some(r) => Some(r@),
            None => None,
        }
    }

    /// A value worked out as of `as_of_ms`.
    pub fn known(value: T, as_of_ms: u64) -> (m: Self)
        ensures
            m.value_spec() == Some(value),
            m.status_spec() == MeasuredStatus::Known,
            m.as_of_spec() == Some(as_of_ms),
            m.reason_spec() is None,
    {
        Measured { value: Some(value), status: MeasuredStatus::Known, as_of_ms: Some(as_of_ms), reason: None }
    }

    /// A value worked out under settings that have since changed.
    pub fn stale(value: T, as_of_ms: u64, reason: String) -> (m: Self)
        ensures
            m.value_spec() == Some(value),
            m.status_spec() == MeasuredStatus::Stale,
            m.as_of_spec() == Some(as_of_ms),
            m.reason_spec() == Some(reason@),
    {
        Measured {
            value: Some(value),
            status: MeasuredStatus::Stale,
            as_of_ms: Some(as_of_ms),
            reason: Some(reason),
        }
    }

    /// A value worked out from less than all there was.
    pub fn partial(value: T, as_of_ms: u64, reason: String) -> (m: Self)
        ensures
            m.value_spec() == Some(value),
            m.status_spec() == MeasuredStatus::Partial,
            m.as_of_spec() == Some(as_of_ms),
            m.reason_spec() == Some(reason@),
    {
        Measured {
            value: Some(value),
            status: MeasuredStatus::Partial,
            as_of_ms: Some(as_of_ms),
            reason: Some(reason),
        }
    }

    /// No value, and why.
    pub fn unavailable(reason: String) -> (m: Self)
        ensures
            m.value_spec() is None,
            m.status_spec() == MeasuredStatus::Unavailable,
            m.as_of_spec() is None,
            m.reason_spec() == Some(reason@),
    {
        Measured { value: None, status: MeasuredStatus::Unavailable, as_of_ms: None, reason: Some(reason) }
    }

    /// The value; there is one exactly when the number is not unavailable.
    pub fn value(&self) -> (r: &Option<T>)
        ensures
            *r == self.value_spec(),
            (self.status_spec() == MeasuredStatus::Unavailable) == (r is None),
    {
        proof {
            use_type_invariant(self);
        }
        &self.value
    }

    /// How far the number can be trusted: it is unavailable exactly when it has no value
    /// and no moment it was taken at, and known exactly when it gives no reason.
    pub fn status(&self) -> (r: MeasuredStatus)
        ensures
            r == self.status_spec(),
            (r == MeasuredStatus::Unavailable) == (self.value_spec() is None),
            (r == MeasuredStatus::Unavailable) == (self.as_of_spec() is None),
            (r == MeasuredStatus::Known) == (self.reason_spec() is None),
    {
        proof {
            use_type_invariant(self);
        }
        self.status
    }

    pub fn as_of_ms(&self) -> (r: Option<u64>)
        ensures
            r == self.as_of_spec(),
    {
        self.as_of_ms
    }

    pub fn reason(&self) -> (r: Option<&str>)
        ensures
            match r {
                Some(s) => self.reason_spec() == Some(s@),
                None => self.reason_spec() is None,
            },
    {
        match &self.reason {
            Some(s) => Some(s.as_str()),
            None => None,
        }
    }
}

} // verus!
