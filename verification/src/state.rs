//! The persisted records: the global configuration and the course records,
//! together with the roster predicates that the command contracts use.

use vstd::prelude::*;

verus! {

/// The role a participant picks when enrolling in a course.
#[derive(Clone, Copy, Debug, PartialEq, Eq, Structural)]
pub enum Role {
    Leader {},
    Follower {},
}

/// The singleton configuration record: the one account allowed to create
/// courses. Written once at initialization and never changed afterwards.
pub struct Config {
    pub admin: String,
}

/// A course record: a display name and the roster of enrolled participants.
/// The roster holds at most one entry per account; its order is insertion
/// order except that removal swaps the last entry into the vacated slot.
pub struct Course {
    pub name: String,
    pub participants: Vec<(String, Role)>,
}

/// The mathematical value of a `Config`.
#[verifier::ext_equal]
pub struct ConfigView {
    pub admin: Seq<char>,
}

/// The mathematical value of a `Course`.
#[verifier::ext_equal]
pub struct CourseView {
    pub name: Seq<char>,
    pub participants: Seq<(Seq<char>, Role)>,
}

impl View for Config {
    type V = ConfigView;

    open spec fn view(&self) -> ConfigView {
        ConfigView { admin: self.admin@ }
    }
}

impl View for Course {
    type V = CourseView;

    open spec fn view(&self) -> CourseView {
        CourseView {
            name: self.name@,
            participants: self.participants@.map_values(|p: (String, Role)| (p.0@, p.1)),
        }
    }
}

/// No account appears twice on the roster.
pub open spec fn distinct_participants(ps: Seq<(Seq<char>, Role)>) -> bool {
    forall|i: int, j: int| 0 <= i < j < ps.len() ==> ps[i].0 != ps[j].0
}

/// The account has an entry on the roster.
pub open spec fn enrolled(ps: Seq<(Seq<char>, Role)>, who: Seq<char>) -> bool {
    exists|i: int| 0 <= i < ps.len() && ps[i].0 == who
}

/// The account has an entry on the roster under exactly this role.
pub open spec fn enrolled_as(ps: Seq<(Seq<char>, Role)>, who: Seq<char>, role: Role) -> bool {
    exists|i: int| 0 <= i < ps.len() && ps[i] == (who, role)
}

/// The index of the account's roster entry (unique when the roster is
/// distinct).
pub open spec fn roster_index_of(ps: Seq<(Seq<char>, Role)>, who: Seq<char>) -> int {
    choose|i: int| 0 <= i < ps.len() && ps[i].0 == who
}

/// The roster after a swap-with-last removal of the entry at `i`: the last
/// entry overwrites slot `i`, then the roster shrinks by one.
pub open spec fn swap_removed(ps: Seq<(Seq<char>, Role)>, i: int) -> Seq<(Seq<char>, Role)> {
    ps.update(i, ps.last()).drop_last()
}

impl CourseView {
    /// The course invariant: its roster never enrolls an account twice.
    pub open spec fn wf(self) -> bool {
        distinct_participants(self.participants)
    }
}

/// The course after an enrollment: the new entry is appended.
pub open spec fn with_enrollment(c: CourseView, who: Seq<char>, role: Role) -> CourseView {
    CourseView { name: c.name, participants: c.participants.push((who, role)) }
}

/// The course after an unenrollment: the account's entry is removed by the
/// swap-with-last strategy, so the remaining order is not stable.
pub open spec fn without_enrollment(c: CourseView, who: Seq<char>) -> CourseView {
    CourseView {
        name: c.name,
        participants: swap_removed(c.participants, roster_index_of(c.participants, who)),
    }
}

/// Enrolling an absent account keeps the roster distinct, shows the account
/// under exactly the chosen role, and leaves every other account's standing
/// unchanged.
pub proof fn lemma_enroll_roster(ps: Seq<(Seq<char>, Role)>, who: Seq<char>, role: Role)
    requires
        distinct_participants(ps),
        !enrolled(ps, who),
    ensures
        distinct_participants(ps.push((who, role))),
        enrolled(ps.push((who, role)), who),
        enrolled_as(ps.push((who, role)), who, role),
        forall|r2: Role| enrolled_as(ps.push((who, role)), who, r2) ==> r2 == role,
        forall|other: Seq<char>|
            other != who ==> enrolled(ps.push((who, role)), other) == enrolled(ps, other),
        forall|other: Seq<char>, r2: Role|
            other != who ==> enrolled_as(ps.push((who, role)), other, r2) == enrolled_as(
                ps,
                other,
                r2,
            ),
{
    let qs = ps.push((who, role));
    assert(qs[ps.len() as int] == (who, role));
    assert forall|i: int, j: int| 0 <= i < j < qs.len() implies qs[i].0 != qs[j].0 by {
        if j < ps.len() {
        } else {
            assert(qs[i] == ps[i]);
        }
    }
    assert forall|r2: Role| enrolled_as(qs, who, r2) implies r2 == role by {
        let i = choose|i: int| 0 <= i < qs.len() && qs[i] == (who, r2);
        if i < ps.len() {
            assert(ps[i].0 == who);
        }
    }
    assert forall|other: Seq<char>|
        other != who implies enrolled(qs, other) == enrolled(ps, other) by {
        if enrolled(qs, other) {
            let i = choose|i: int| 0 <= i < qs.len() && qs[i].0 == other;
            assert(ps[i].0 == other);
        }
        if enrolled(ps, other) {
            let i = choose|i: int| 0 <= i < ps.len() && ps[i].0 == other;
            assert(qs[i].0 == other);
        }
    }
    assert forall|other: Seq<char>, r2: Role|
        other != who implies enrolled_as(qs, other, r2) == enrolled_as(ps, other, r2) by {
        if enrolled_as(qs, other, r2) {
            let i = choose|i: int| 0 <= i < qs.len() && qs[i] == (other, r2);
            assert(ps[i] == (other, r2));
        }
        if enrolled_as(ps, other, r2) {
            let i = choose|i: int| 0 <= i < ps.len() && ps[i] == (other, r2);
            assert(qs[i] == (other, r2));
        }
    }
}

/// Swap-removing the enrolled account's entry keeps the roster distinct,
/// removes exactly that account, shortens the roster by one, and leaves
/// every other account's standing (and role) unchanged.
pub proof fn lemma_unenroll_roster(ps: Seq<(Seq<char>, Role)>, who: Seq<char>)
    requires
        distinct_participants(ps),
        enrolled(ps, who),
    ensures
        ({
            let i = roster_index_of(ps, who);
            let qs = swap_removed(ps, i);
            &&& 0 <= i < ps.len()
            &&& ps[i].0 == who
            &&& qs.len() == ps.len() - 1
            &&& distinct_participants(qs)
            &&& !enrolled(qs, who)
            &&& forall|other: Seq<char>|
                other != who ==> enrolled(qs, other) == enrolled(ps, other)
            &&& forall|other: Seq<char>, r2: Role|
                other != who ==> enrolled_as(qs, other, r2) == enrolled_as(ps, other, r2)
        }),
{
    let i = roster_index_of(ps, who);
    let qs = swap_removed(ps, i);
    assert(0 <= i < ps.len() && ps[i].0 == who);
    let n = ps.len() as int;
    assert(forall|j: int| 0 <= j < n - 1 ==> qs[j] == (if j == i { ps[n - 1] } else { ps[j] }));
    assert forall|p: int, q: int| 0 <= p < q < qs.len() implies qs[p].0 != qs[q].0 by {
        assert(q != n - 1);
    }
    if enrolled(qs, who) {
        let j = choose|j: int| 0 <= j < qs.len() && qs[j].0 == who;
        if j == i {
            assert(ps[n - 1].0 == who);
            assert(n - 1 == i);
        } else {
            assert(ps[j].0 == who);
            assert(j == i);
        }
    }
    assert forall|other: Seq<char>|
        other != who implies enrolled(qs, other) == enrolled(ps, other) by {
        if enrolled(qs, other) {
            let j = choose|j: int| 0 <= j < qs.len() && qs[j].0 == other;
            if j == i {
                assert(ps[n - 1].0 == other);
            } else {
                assert(ps[j].0 == other);
            }
        }
        if enrolled(ps, other) {
            let j = choose|j: int| 0 <= j < ps.len() && ps[j].0 == other;
            assert(j != i);
            if j == n - 1 {
                assert(i < n - 1);
                assert(qs[i].0 == other);
            } else {
                assert(qs[j].0 == other);
            }
        }
    }
    assert forall|other: Seq<char>, r2: Role|
        other != who implies enrolled_as(qs, other, r2) == enrolled_as(ps, other, r2) by {
        if enrolled_as(qs, other, r2) {
            let j = choose|j: int| 0 <= j < qs.len() && qs[j] == (other, r2);
            if j == i {
                assert(ps[n - 1] == (other, r2));
            } else {
                assert(ps[j] == (other, r2));
            }
        }
        if enrolled_as(ps, other, r2) {
            let j = choose|j: int| 0 <= j < ps.len() && ps[j] == (other, r2);
            assert(j != i);
            if j == n - 1 {
                assert(i < n - 1);
                assert(qs[i] == (other, r2));
            } else {
                assert(qs[j] == (other, r2));
            }
        }
    }
}

} // verus!
