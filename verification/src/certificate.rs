//! Whether a certificate is news.
use vstd::prelude::*;
use vstd::std_specs::cmp::PartialEqSpec;

verus! {

/// The certificate seen last.
pub struct CertificateTracker<C> {
    pub last: C,
}

impl<C: PartialEq> CertificateTracker<C> {
    /// A tracker that has seen `first` only.
    pub fn new(first: C) -> (tracker: Self)
        ensures
            tracker.last == first,
    {
        CertificateTracker { last: first }
    }

    /// Whether `certificate` differs from the one seen last. It is the one seen last from now
    /// on.
    pub fn observe(&mut self, certificate: C) -> (changed: bool)
        ensures
            final(self).last == certificate,
            C::obeys_eq_spec() ==> changed == !old(self).last.eq_spec(&certificate),
    {
        let changed = !(self.last == certificate);
        self.last = certificate;
        changed
    }
}

/// A certificate is news exactly if it differs from the one seen right before it, and the one
/// that a tracker starts with counts as seen.
pub proof fn law_news_is_what_differs<C: PartialEq>(
    first: C,
    tracker: &mut CertificateTracker<C>,
    second: C,
    changed: bool,
    later: &mut CertificateTracker<C>,
    third: C,
    changed_again: bool,
)
    requires
        C::obeys_eq_spec(),
        call_ensures(CertificateTracker::<C>::new, (first,), *old(tracker)),
        call_ensures(CertificateTracker::<C>::observe, (tracker, second), changed),
        *old(later) == *final(tracker),
        call_ensures(CertificateTracker::<C>::observe, (later, third), changed_again),
    ensures
        changed <==> !first.eq_spec(&second),
        changed_again <==> !second.eq_spec(&third),
        final(later).last == third,
{
}

} // verus!
