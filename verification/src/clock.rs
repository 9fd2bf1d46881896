//! Deadlines.
use tokio::time::Instant;
use vstd::prelude::*;

verus! {

/// `tokio::time::Instant`, a reading of a clock that does not go back.
#[verifier::external_type_specification]
#[verifier::external_body]
pub struct ExInstant(tokio::time::Instant);

/// Whether a deadline was found to have passed.
pub struct Reading {
    deadline: Instant,
    passed: bool,
}

impl Reading {
    /// The deadline that was asked for.
    pub closed spec fn of(self) -> Instant {
        self.deadline
    }

    /// What the answer was.
    pub closed spec fn says_passed(self) -> bool {
        self.passed
    }
}

/// Whether an answer is that of a reading of a deadline.
pub open spec fn answers(
    reading: Option<Reading>,
    deadline: Option<Instant>,
    answer: bool,
) -> bool {
    match reading {
        Some(reading) => deadline == Some(reading.of()) && answer == reading.says_passed(),
        None => false,
    }
}

/// Compares a deadline with `tokio::time::Instant::now`. The reading is one of
/// this deadline; nothing is said of the answer, which is up to the time.
#[verifier::external_body]
fn passed_deadline(deadline: Instant) -> (r: Reading)
    ensures
        r.of() == deadline,
{
    Reading { deadline, passed: Instant::now() >= deadline }
}

/// Calls `tokio::time::Instant::now`. Nothing is said of the answer, which is up
/// to the time.
#[verifier::external_body]
pub(crate) fn now() -> (r: Instant) {
    Instant::now()
}

/// Calls `tokio::time::Instant::elapsed`, in nanoseconds. Nothing is said of the
/// answer, which is up to the time.
#[verifier::external_body]
pub(crate) fn elapsed_nanos(start: Instant) -> (r: u128) {
    start.elapsed().as_nanos()
}

/// Whether the deadline has passed at a check, the checks being numbered from
/// 0, where it passes at check `limit` or, with `None`, at none.
pub open spec fn expired(limit: Option<nat>, check: nat) -> bool {
    match limit {
        Some(first) => first <= check,
        None => false,
    }
}

/// A deadline that is asked for again and again. Once it has passed it stays
/// passed.
///
/// What a search does depends on the time only through the number of the check
/// at which the deadline is first found to have passed. A clock knows how many
/// checks were made and admits those numbers that agree with the answers.
pub struct Clock {
    deadline: Option<Instant>,
    checks_left: Option<u64>,
    passed: bool,
    reading: Option<Reading>,
    asked: Ghost<nat>,
    passed_at: Ghost<nat>,
}

impl Clock {
    #[verifier::type_invariant]
    spec fn answers_agree(self) -> bool {
        &&& self.passed ==> self.passed_at@ <= self.asked@
        &&& self.deadline is Some ==> self.checks_left is None
    }

    /// How many checks were made.
    pub closed spec fn asked(self) -> nat {
        self.asked@
    }

    /// Whether the answers so far agree with a deadline that passes at check
    /// `limit`.
    pub closed spec fn admits(self, limit: Option<nat>) -> bool {
        if self.passed {
            limit == Some(self.passed_at@)
        } else {
            match self.checks_left {
                Some(left) => limit == Some(self.asked@ + left as nat),
                None => match (self.deadline, limit) {
                    (None, _) => limit is None,
                    (Some(_), Some(first)) => self.asked@ <= first,
                    (Some(_), None) => true,
                },
            }
        }
    }

    /// The deadline that the clock asks for, where it has one.
    pub closed spec fn ends_at(self) -> Option<Instant> {
        self.deadline
    }

    /// Whether the deadline was found to have passed.
    pub closed spec fn has_passed(self) -> bool {
        self.passed
    }

    /// The last reading of the deadline.
    pub closed spec fn last_reading(self) -> Option<Reading> {
        self.reading
    }

    /// One of the numbers that the clock admits.
    pub closed spec fn limit(self) -> Option<nat> {
        if self.passed {
            Some(self.passed_at@)
        } else {
            match self.checks_left {
                Some(left) => Some(self.asked@ + left as nat),
                None => None,
            }
        }
    }

    /// A clock admits some number.
    pub proof fn lemma_admits_limit(self)
        ensures
            self.admits(self.limit()),
    {
    }

    /// A clock without a deadline.
    pub fn never() -> (r: Clock)
        ensures
            r.asked() == 0,
            !r.has_passed(),
            r.ends_at() is None,
            forall|limit: Option<nat>| #[trigger] r.admits(limit) <==> limit is None,
    {
        Clock {
            deadline: None,
            checks_left: None,
            passed: false,
            reading: None,
            asked: Ghost(0),
            passed_at: Ghost(0),
        }
    }

    /// A clock with a deadline.
    pub fn until(deadline: Instant) -> (r: Clock)
        ensures
            r.asked() == 0,
            !r.has_passed(),
            r.ends_at() == Some(deadline),
            forall|limit: Option<nat>| #[trigger] r.admits(limit),
    {
        Clock {
            deadline: Some(deadline),
            checks_left: None,
            passed: false,
            reading: None,
            asked: Ghost(0),
            passed_at: Ghost(0),
        }
    }

    /// A clock that goes by the number of checks, whatever the time.
    pub fn expiring_after(checks: u64) -> (r: Clock)
        ensures
            r.asked() == 0,
            !r.has_passed(),
            r.ends_at() is None,
            forall|limit: Option<nat>| #[trigger]
                r.admits(limit) <==> limit == Some(checks as nat),
    {
        Clock {
            deadline: None,
            checks_left: Some(checks),
            passed: false,
            reading: None,
            asked: Ghost(0),
            passed_at: Ghost(0),
        }
    }

    /// Asks whether the deadline has passed. As long as it has not, a clock with
    /// a deadline takes a new reading of it and answers what the reading says.
    pub fn check(&mut self) -> (r: bool)
        ensures
            final(self).asked() == old(self).asked() + 1,
            final(self).ends_at() == old(self).ends_at(),
            final(self).has_passed() == r,
            old(self).has_passed() ==> r,
            !old(self).has_passed() && old(self).ends_at() is Some ==> answers(
                final(self).last_reading(),
                old(self).ends_at(),
                r,
            ),
            forall|limit: Option<nat>| #[trigger]
                final(self).admits(limit) ==> old(self).admits(limit) && r == expired(
                    limit,
                    old(self).asked(),
                ),
    {
        proof {
            use_type_invariant(&*self);
        }
        let ghost number = self.asked@;
        self.asked = Ghost(number + 1);
        if self.passed {
            return true;
        }
        let passed: bool = match self.checks_left {
            Some(left) => left == 0,
            None => match self.deadline {
                Some(deadline) => {
                    let reading: Reading = passed_deadline(deadline);
                    let passed: bool = reading.passed;
                    self.reading = Some(reading);
                    passed
                },
                None => false,
            },
        };
        if passed {
            self.passed_at = Ghost(number);
            self.passed = true;
        } else {
            match self.checks_left {
                Some(left) => {
                    self.checks_left = Some(left - 1);
                },
                None => {},
            }
        }
        passed
    }
}

} // verus!
