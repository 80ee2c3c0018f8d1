//! Notifications shown one at a time; the others wait in order.
use vstd::prelude::*;
use crate::text::copy_text;
use crate::time::{Duration, Instant};

verus! {

#[derive(Debug, Clone, Copy, Eq, PartialEq, Structural)]
pub enum NotificationKind {
    /// A feedback to the user, usually those notifications have an expiry.
    Feedback,
    /// Show an error to the user. Usually those notifications must be clicked to be discarded.
    Error,
}

#[derive(Debug, Eq, PartialEq)]
pub struct Notification {
    pub text: String,
    pub expiry: Option<Duration>,
    pub kind: NotificationKind,
    pub multiplier: usize,
}

impl Clone for Notification {
    fn clone(&self) -> (r: Self)
        ensures
            r == *self,
    {
        Notification {
            text: self.text.clone(),
            expiry: self.expiry,
            kind: self.kind,
            multiplier: self.multiplier,
        }
    }
}

/// Two notifications combine when they say the same thing in the same way.
pub open spec fn combinable(a: Notification, b: Notification) -> bool {
    a.text@ == b.text@ && a.kind == b.kind
}

impl Notification {
    pub fn new(text: &str, expiry: Option<Duration>, kind: NotificationKind) -> (n: Notification)
        ensures
            n.text@ == text@,
            n.expiry == expiry,
            n.kind == kind,
            n.multiplier == 1,
    {
        Notification { text: copy_text(text), expiry, kind, multiplier: 1 }
    }

    pub fn can_combine(&self, notification: &Notification) -> (r: bool)
        ensures
            r == combinable(*self, *notification),
    {
        self.text == notification.text && self.kind == notification.kind
    }
}

#[verifier::external_type_specification]
#[verifier::external_body]
pub struct ExMonotonicInstant(std::time::Instant);

/// Reads the monotonic clock, `std::time::Instant::now`. Nothing is promised
/// of the reading.
#[verifier::external_body]
fn monotonic_now() -> std::time::Instant {
    std::time::Instant::now()
}

/// The nanoseconds elapsed on the monotonic clock since `origin`:
/// `std::time::Instant::elapsed` of it, in nanoseconds. Nothing is promised of
/// the value.
#[verifier::external_body]
fn nanos_since(origin: &std::time::Instant) -> u128 {
    origin.elapsed().as_nanos()
}

pub struct Notifications {
    /// The monotonic clock's reading when the notifications were made; the
    /// times of the notifications count from it.
    origin: std::time::Instant,
    current: Option<(Notification, Instant)>,
    /// Queue of pending notifications.
    /// The new element are push to the back, and the front elements are consumed.
    pending: Vec<Notification>,
}

/// An expiry by its length.
pub open spec fn expiry_view(expiry: Option<Duration>) -> Option<nat> {
    match expiry {
        Some(d) => Some(d@),
        None => None,
    }
}

/// `after` is `before` once a new notification with this text, expiry and
/// kind was pushed.
pub open spec fn pushed(
    before: Notifications,
    after: Notifications,
    text: Seq<char>,
    expiry: Option<nat>,
    kind: NotificationKind,
) -> bool {
    match before.spec_current() {
        None => {
            &&& after.spec_current() matches Some(n)
            &&& n.text@ == text
            &&& expiry_view(n.expiry) == expiry
            &&& n.kind == kind
            &&& n.multiplier == 1
            &&& after.spec_pending() == before.spec_pending()
        },
        Some(c) => if c.text@ == text && c.kind == kind {
            &&& after.spec_current() == Some(
                Notification { multiplier: (c.multiplier + 1) as usize, ..c },
            )
            &&& after.spec_pending() == before.spec_pending()
        } else {
            &&& after.spec_current() == before.spec_current()
            &&& after.spec_started() == before.spec_started()
            &&& after.spec_pending().len() == before.spec_pending().len() + 1
            &&& after.spec_pending().drop_last() == before.spec_pending()
            &&& after.spec_pending().last().text@ == text
            &&& expiry_view(after.spec_pending().last().expiry) == expiry
            &&& after.spec_pending().last().kind == kind
            &&& after.spec_pending().last().multiplier == 1
        },
    }
}

/// `after` shows the first notification waiting in `before`, or none.
pub open spec fn cleared(before: Notifications, after: Notifications) -> bool {
    if before.spec_pending().len() == 0 {
        after.spec_current() is None && after.spec_pending() == before.spec_pending()
    } else {
        after.spec_current() == Some(before.spec_pending()[0]) && after.spec_pending()
            == before.spec_pending().drop_first()
    }
}

/// The notification shown in `before` has expired at `now`.
pub open spec fn expired_at(before: Notifications, now: Instant) -> bool {
    match (before.spec_current(), before.spec_started()) {
        (Some(n), Some(t)) => match n.expiry {
            Some(d) => now@ >= t@ && now@ - t@ >= d@ || now@ < t@ && d@ == 0,
            None => false,
        },
        _ => false,
    }
}

/// `after` is `before` brought up to date at `now`.
pub open spec fn updated(before: Notifications, after: Notifications, now: Instant) -> bool {
    if expired_at(before, now) {
        cleared(before, after)
    } else {
        after.spec_current() == before.spec_current() && after.spec_started() == before.spec_started()
            && after.spec_pending() == before.spec_pending()
    }
}

impl Notifications {
    /// The notification shown, if any.
    pub closed spec fn spec_current(&self) -> Option<Notification> {
        match self.current {
            Some((n, _)) => Some(n),
            None => None,
        }
    }

    /// When the notification shown was shown, or last repeated.
    pub closed spec fn spec_started(&self) -> Option<Instant> {
        match self.current {
            Some((_, t)) => Some(t),
            None => None,
        }
    }

    /// The notifications waiting, first to be shown first.
    pub closed spec fn spec_pending(&self) -> Seq<Notification> {
        self.pending@
    }

    pub fn new() -> (r: Notifications)
        ensures
            r.spec_current() is None,
            r.spec_pending() == Seq::<Notification>::empty(),
    {
        Notifications { origin: monotonic_now(), current: None, pending: Vec::new() }
    }

    /// The time now, on the monotonic clock, counted from when the
    /// notifications were made. Nothing is promised of its value.
    pub fn now(&self) -> Instant {
        Instant::from_nanos(nanos_since(&self.origin))
    }

    pub fn current(&self) -> (r: Option<&Notification>)
        ensures
            match self.spec_current() {
                Some(n) => r == Some(&n),
                None => r is None,
            },
    {
        match &self.current {
            Some((notification, _)) => Some(notification),
            None => None,
        }
    }

    /// Shows a notification at `now`: at once when none is shown; as one more
    /// repeat of the one shown when they combine, its time restarting at `now`;
    /// else after the ones waiting.
    pub fn push_at(&mut self, notification: Notification, now: Instant)
        requires
            old(self).spec_current() matches Some(c) ==> (combinable(c, notification) ==> c.multiplier
                < usize::MAX),
        ensures
            match old(self).spec_current() {
                None => final(self).spec_current() == Some(notification) && final(self).spec_pending()
                    == old(self).spec_pending() && final(self).spec_started() == Some(now),
                Some(c) => if combinable(c, notification) {
                    final(self).spec_current() == Some(
                        Notification { multiplier: (c.multiplier + 1) as usize, ..c },
                    ) && final(self).spec_pending() == old(self).spec_pending() && final(self).spec_started()
                        == Some(now)
                } else {
                    final(self).spec_current() == old(self).spec_current() && final(self).spec_started()
                        == old(self).spec_started() && final(self).spec_pending()
                        == old(self).spec_pending().push(notification)
                },
            },
            notification.multiplier == 1 ==> pushed(
                *old(self),
                *final(self),
                notification.text@,
                expiry_view(notification.expiry),
                notification.kind,
            ),
    {
        match self.current.take() {
            None => {
                self.current = Some((notification, now));
            },
            Some((current, started)) => {
                if current.can_combine(&notification) {
                    let combined = Notification { multiplier: current.multiplier + 1, ..current };
                    self.current = Some((combined, now));
                } else {
                    self.current = Some((current, started));
                    self.pending.push(notification);
                    assert(self.pending@.drop_last() =~= old(self).pending@);
                }
            },
        }
    }

    /// Shows a notification now: at once when none is shown; as one more repeat
    /// of the one shown when they combine, its time restarting; else after the
    /// ones waiting. The time is the monotonic clock's reading.
    pub fn push(&mut self, notification: Notification)
        requires
            old(self).spec_current() matches Some(c) ==> (combinable(c, notification) ==> c.multiplier
                < usize::MAX),
        ensures
            match old(self).spec_current() {
                None => final(self).spec_current() == Some(notification) && final(self).spec_pending()
                    == old(self).spec_pending() && final(self).spec_started() is Some,
                Some(c) => if combinable(c, notification) {
                    final(self).spec_current() == Some(
                        Notification { multiplier: (c.multiplier + 1) as usize, ..c },
                    ) && final(self).spec_pending() == old(self).spec_pending() && final(self).spec_started() is Some
                } else {
                    final(self).spec_current() == old(self).spec_current() && final(self).spec_started()
                        == old(self).spec_started() && final(self).spec_pending()
                        == old(self).spec_pending().push(notification)
                },
            },
            notification.multiplier == 1 ==> pushed(
                *old(self),
                *final(self),
                notification.text@,
                expiry_view(notification.expiry),
                notification.kind,
            ),
    {
        let now = self.now();
        self.push_at(notification, now);
    }

    /// Shows the next notification waiting, or none.
    pub fn clear_current(&mut self)
        ensures
            if old(self).spec_pending().len() == 0 {
                final(self).spec_current() is None && final(self).spec_pending() == old(
                    self,
                ).spec_pending()
            } else {
                final(self).spec_current() == Some(old(self).spec_pending()[0])
                    && final(self).spec_pending() == old(self).spec_pending().drop_first()
            },
            cleared(*old(self), *final(self)),
    {
        self.current = self.take_next_pending();
    }

    /// Hides the notification shown once its expiry has elapsed at `now`, and
    /// shows the next one waiting.
    pub fn update(&mut self, now: Instant)
        ensures
            ({
                let expired = match (old(self).spec_current(), old(self).spec_started()) {
                    (Some(n), Some(t)) => match n.expiry {
                        Some(d) => now@ >= t@ && now@ - t@ >= d@ || now@ < t@ && d@ == 0,
                        None => false,
                    },
                    _ => false,
                };
                if !expired {
                    final(self).spec_current() == old(self).spec_current() && final(self).spec_started()
                        == old(self).spec_started() && final(self).spec_pending()
                        == old(self).spec_pending()
                } else if old(self).spec_pending().len() == 0 {
                    final(self).spec_current() is None && final(self).spec_pending() == old(
                        self,
                    ).spec_pending()
                } else {
                    final(self).spec_current() == Some(old(self).spec_pending()[0])
                        && final(self).spec_pending() == old(self).spec_pending().drop_first()
                }
            }),
            updated(*old(self), *final(self), now),
    {
        let mut expired = false;
        if let Some((notification, instant)) = &self.current {
            if let Some(duration) = notification.expiry {
                if now.saturating_duration_since(instant).at_least(&duration) {
                    expired = true;
                }
            }
        }
        if expired {
            self.current = self.take_next_pending();
        }
    }

    /// Takes the first notification waiting, stamped with the current time.
    pub fn take_next_pending(&mut self) -> (r: Option<(Notification, Instant)>)
        ensures
            final(self).spec_current() == old(self).spec_current(),
            final(self).spec_started() == old(self).spec_started(),
            if old(self).spec_pending().len() == 0 {
                r is None && final(self).spec_pending() == old(self).spec_pending()
            } else {
                r matches Some((n, _)) && n == old(self).spec_pending()[0] && final(self).spec_pending()
                    == old(self).spec_pending().drop_first()
            },
    {
        if self.pending.len() == 0 {
            None
        } else {
            let first = self.pending.remove(0);
            assert(self.pending@ =~= old(self).spec_pending().drop_first());
            Some((first, self.now()))
        }
    }
}


/// Notifications are shown in the order they were pushed: one pushed while
/// another is shown, and that does not repeat it, waits behind those already
/// waiting; hiding the one shown then shows the first of those.
pub proof fn lemma_first_in_first_out(
    a: Notifications,
    b: Notifications,
    c: Notifications,
    text: Seq<char>,
    expiry: Option<nat>,
    kind: NotificationKind,
)
    requires
        (a.spec_current() matches Some(shown) && !(shown.text@ == text && shown.kind == kind)),
        pushed(a, b, text, expiry, kind),
        cleared(b, c),
    ensures
        a.spec_pending().len() == 0 ==> (c.spec_current() matches Some(n) && n.text@ == text && n.kind == kind),
        a.spec_pending().len() > 0 ==> c.spec_current() == Some(a.spec_pending()[0]),
        c.spec_pending().len() == a.spec_pending().len(),
{
}

} // verus!
