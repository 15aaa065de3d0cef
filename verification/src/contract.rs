//! The command processor: initialization, the three mutating commands and
//! the two read-only queries, with the authorization rule and the roster
//! invariant. Every check runs before any write, so a failed command leaves
//! the store exactly as it was.

use cosmwasm_std::Api;
use vstd::prelude::*;

use crate::error::ContractError;
use crate::msg::{
    AllCoursesResponse, CourseResponse, ExecuteMsg, InstantiateMsg, QueryAnswer, QueryMsg,
    Response,
};
use crate::state::{
    enrolled, enrolled_as, lemma_enroll_roster, lemma_unenroll_roster, roster_index_of,
    swap_removed, with_enrollment, without_enrollment, Config, ConfigView, Course, CourseView,
    Role,
};
use crate::store::{lemma_course_at, Store, StoreView};
use crate::order::lex_lt;

verus! {

/// Whether the host accepts this account identifier.
pub uninterp spec fn addr_ok(s: Seq<char>) -> bool;

/// Relies on `cosmwasm_std::testing::MockApi::addr_validate`: whether an
/// identifier is accepted depends on its characters alone, and a successful
/// call returns the input unchanged.
#[verifier::external_body]
fn validate_address(s: &String) -> (r: Result<String, ContractError>)
    ensures
        r is Ok <==> addr_ok(s@),
        r is Ok ==> r->Ok_0@ == s@,
        r is Err ==> r->Err_0 == (ContractError::InvalidAddress {}),
{
    match cosmwasm_std::testing::MockApi::default().addr_validate(s.as_str()) {
        Ok(addr) => Ok(addr.into_string()),
        Err(_) => Err(ContractError::InvalidAddress {}),
    }
}

/// The admin identity initialization resolves: the explicit one when given,
/// else the invoker's own.
pub open spec fn resolved_admin(msg: InstantiateMsg, sender: Seq<char>) -> Seq<char> {
    match msg.admin {
        Some(a) => a@,
        None => sender,
    }
}

/// Every course other than `id` is stored exactly as before.
pub open spec fn unchanged_except(pre: StoreView, post: StoreView, id: Seq<char>) -> bool {
    &&& forall|k: Seq<char>| k != id ==> post.has_course(k) == pre.has_course(k)
    &&& forall|k: Seq<char>| k != id && pre.has_course(k) ==> post.course_of(k) == pre.course_of(k)
}

/// What a successful course creation leaves behind: a fresh, empty roster
/// under `id` (overwriting whatever the id held), everything else as it
/// was.
pub open spec fn created(pre: StoreView, post: StoreView, id: Seq<char>, name: Seq<char>) -> bool {
    &&& post.has_course(id)
    &&& post.course_of(id) == (CourseView { name, participants: Seq::empty() })
    &&& unchanged_except(pre, post, id)
    &&& pre.has_course(id) ==> post.courses.len() == pre.courses.len()
    &&& !pre.has_course(id) ==> post.courses.len() == pre.courses.len() + 1
}

/// Enrollment succeeds exactly when the course exists and the account is
/// not yet on its roster.
pub open spec fn can_enroll(s: StoreView, id: Seq<char>, who: Seq<char>) -> bool {
    s.has_course(id) && !enrolled(s.course_of(id).participants, who)
}

/// What a successful enrollment leaves behind.
pub open spec fn enroll_applied(
    pre: StoreView,
    post: StoreView,
    id: Seq<char>,
    who: Seq<char>,
    role: Role,
) -> bool {
    &&& post.has_course(id)
    &&& post.course_of(id) == with_enrollment(pre.course_of(id), who, role)
    &&& unchanged_except(pre, post, id)
    &&& post.courses.len() == pre.courses.len()
}

/// Unenrollment succeeds exactly when the course exists and the account is
/// on its roster.
pub open spec fn can_unenroll(s: StoreView, id: Seq<char>, who: Seq<char>) -> bool {
    s.has_course(id) && enrolled(s.course_of(id).participants, who)
}

/// What a successful unenrollment leaves behind.
pub open spec fn unenroll_applied(
    pre: StoreView,
    post: StoreView,
    id: Seq<char>,
    who: Seq<char>,
) -> bool {
    &&& post.has_course(id)
    &&& post.course_of(id) == without_enrollment(pre.course_of(id), who)
    &&& unchanged_except(pre, post, id)
    &&& post.courses.len() == pre.courses.len()
}

/// Initialize the registry: resolve the admin identity, validate it, and
/// persist the configuration. The acknowledgment records the action and the
/// resolved admin for external auditing.
pub fn instantiate(store: &mut Store, sender: String, msg: InstantiateMsg) -> (r: Result<
    Response,
    ContractError,
>)
    requires
        old(store)@.wf(),
    ensures
        final(store)@.wf(),
        r is Ok <==> addr_ok(resolved_admin(msg, sender@)),
        r is Err ==> r->Err_0 == (ContractError::InvalidAddress {}) && final(store)@ == old(
            store,
        )@,
        r is Ok ==> final(store)@.config == Some(
            ConfigView { admin: resolved_admin(msg, sender@) },
        ) && final(store)@.courses == old(store)@.courses,
        r is Ok ==> ({
            let attrs = r->Ok_0.attributes@;
            &&& attrs.len() == 2
            &&& attrs[0].0@ == "action"@
            &&& attrs[0].1@ == "instantiate"@
            &&& attrs[1].0@ == "admin"@
            &&& attrs[1].1@ == resolved_admin(msg, sender@)
        }),
{
    let admin = match msg.admin {
        Some(a) => a,
        None => sender,
    };
    let validated = match validate_address(&admin) {
        Ok(v) => v,
        Err(e) => {
            return Err(e);
        },
    };
    store.config_save(Config { admin: validated });
    Ok(
        Response::new().add_attribute("action".to_owned(), "instantiate".to_owned()).add_attribute(
            "admin".to_owned(),
            admin,
        ),
    )
}

/// The index of the invoker's entry on the roster, or absent when the
/// invoker is not enrolled. When present it is the first such entry.
fn find_participant(course: &Course, who: &String) -> (r: Option<usize>)
    ensures
        match r {
            Some(i) => 0 <= i < course@.participants.len() && course@.participants[
                i as int
            ].0 == who@,
            None => !enrolled(course@.participants, who@),
        },
{
    let n = course.participants.len();
    let mut i: usize = 0;
    while i < n
        invariant
            i <= n,
            n == course@.participants.len(),
            forall|j: int| 0 <= j < i ==> course@.participants[j].0 != who@,
        decreases n - i,
    {
        let entry = &course.participants[i];
        if entry.0 == *who {
            return Some(i);
        }
        i = i + 1;
    }
    None
}

/// Create (or overwrite) the course under `course_id` with an empty roster.
/// Only the configured admin may do this; anyone else is turned away
/// unauthorized, whatever the id holds.
pub fn execute_create_course(
    store: &mut Store,
    sender: String,
    course_id: String,
    name: String,
) -> (r: Result<Response, ContractError>)
    requires
        old(store)@.wf(),
        old(store)@.config is Some,
    ensures
        final(store)@.wf(),
        final(store)@.config == old(store)@.config,
        r is Ok <==> sender@ == old(store)@.admin(),
        r is Err ==> r->Err_0 == (ContractError::Unauthorized {}) && final(store)@ == old(store)@,
        r is Ok ==> created(old(store)@, final(store)@, course_id@, name@)
            && r->Ok_0.attributes@.len() == 0,
{
    let config = store.config_get().unwrap();
    if config.admin == sender {
        let course = Course { name, participants: Vec::new() };
        proof {
            assert(course@.participants =~= Seq::<(Seq<char>, Role)>::empty());
        }
        store.course_save(&course_id, course);
        Ok(Response::new())
    } else {
        Err(ContractError::Unauthorized {})
    }
}

/// Enroll the invoker in the course under the chosen role. Fails when the
/// course does not exist or the invoker is already on its roster; succeeds
/// otherwise, appending the invoker's entry.
pub fn execute_enroll(store: &mut Store, sender: String, course_id: String, role: Role) -> (r:
    Result<Response, ContractError>)
    requires
        old(store)@.wf(),
    ensures
        final(store)@.wf(),
        final(store)@.config == old(store)@.config,
        r is Ok <==> can_enroll(old(store)@, course_id@, sender@),
        r is Err ==> final(store)@ == old(store)@,
        !old(store)@.has_course(course_id@) ==> r is Err && r->Err_0 == (
        ContractError::CourseNotFound {}),
        old(store)@.has_course(course_id@) && enrolled(
            old(store)@.course_of(course_id@).participants,
            sender@,
        ) ==> r is Err && r->Err_0 == (ContractError::AlreadyEnrolled {}),
        r is Ok ==> enroll_applied(old(store)@, final(store)@, course_id@, sender@, role)
            && r->Ok_0.attributes@.len() == 0,
{
    let mut course = match store.course_get(&course_id) {
        Some(c) => c,
        None => {
            return Err(ContractError::CourseNotFound {});
        },
    };
    match find_participant(&course, &sender) {
        Some(_) => Err(ContractError::AlreadyEnrolled {}),
        None => {
            let ghost pre_course = course@;
            proof {
                lemma_course_at(old(store)@, old(store)@.course_index(course_id@));
                lemma_enroll_roster(pre_course.participants, sender@, role);
            }
            course.participants.push((sender, role));
            proof {
                assert(course@.participants =~= pre_course.participants.push(
                    (sender@, role),
                ));
                assert(course@ == with_enrollment(pre_course, sender@, role));
            }
            store.course_save(&course_id, course);
            Ok(Response::new())
        },
    }
}

/// Remove the invoker's entry from the course's roster by swapping the last
/// entry into its place (so the remaining order is not stable). Fails when
/// the course does not exist or the invoker is not on its roster.
pub fn execute_unenroll(store: &mut Store, sender: String, course_id: String) -> (r: Result<
    Response,
    ContractError,
>)
    requires
        old(store)@.wf(),
    ensures
        final(store)@.wf(),
        final(store)@.config == old(store)@.config,
        r is Ok <==> can_unenroll(old(store)@, course_id@, sender@),
        r is Err ==> final(store)@ == old(store)@,
        !old(store)@.has_course(course_id@) ==> r is Err && r->Err_0 == (
        ContractError::CourseNotFound {}),
        old(store)@.has_course(course_id@) && !enrolled(
            old(store)@.course_of(course_id@).participants,
            sender@,
        ) ==> r is Err && r->Err_0 == (ContractError::NotEnrolled {}),
        r is Ok ==> unenroll_applied(old(store)@, final(store)@, course_id@, sender@)
            && r->Ok_0.attributes@.len() == 0,
{
    let mut course = match store.course_get(&course_id) {
        Some(c) => c,
        None => {
            return Err(ContractError::CourseNotFound {});
        },
    };
    match find_participant(&course, &sender) {
        None => Err(ContractError::NotEnrolled {}),
        Some(index) => {
            let ghost pre_course = course@;
            proof {
                lemma_course_at(old(store)@, old(store)@.course_index(course_id@));
                lemma_unenroll_roster(pre_course.participants, sender@);
                assert(roster_index_of(pre_course.participants, sender@) == index as int);
            }
            course.participants.swap_remove(index);
            proof {
                assert(course@.participants =~= swap_removed(
                    pre_course.participants,
                    index as int,
                ));
                assert(course@ == without_enrollment(pre_course, sender@));
            }
            store.course_save(&course_id, course);
            Ok(Response::new())
        },
    }
}

/// Apply one mutating command on behalf of the authenticated invoker.
pub fn execute(store: &mut Store, sender: String, msg: ExecuteMsg) -> (r: Result<
    Response,
    ContractError,
>)
    requires
        old(store)@.wf(),
        old(store)@.config is Some,
    ensures
        final(store)@.wf(),
        final(store)@.config == old(store)@.config,
        r is Err ==> final(store)@ == old(store)@,
        r is Ok ==> r->Ok_0.attributes@.len() == 0,
        match msg {
            ExecuteMsg::CreateCourse { course_id, name } => {
                &&& r is Ok <==> sender@ == old(store)@.admin()
                &&& r is Err ==> r->Err_0 == (ContractError::Unauthorized {})
                &&& r is Ok ==> created(old(store)@, final(store)@, course_id@, name@)
            },
            ExecuteMsg::Enroll { course_id, role } => {
                &&& r is Ok <==> can_enroll(old(store)@, course_id@, sender@)
                &&& !old(store)@.has_course(course_id@) ==> r is Err && r->Err_0 == (
                ContractError::CourseNotFound {})
                &&& old(store)@.has_course(course_id@) && enrolled(
                    old(store)@.course_of(course_id@).participants,
                    sender@,
                ) ==> r is Err && r->Err_0 == (ContractError::AlreadyEnrolled {})
                &&& r is Ok ==> enroll_applied(
                    old(store)@,
                    final(store)@,
                    course_id@,
                    sender@,
                    role,
                )
            },
            ExecuteMsg::Unenroll { course_id } => {
                &&& r is Ok <==> can_unenroll(old(store)@, course_id@, sender@)
                &&& !old(store)@.has_course(course_id@) ==> r is Err && r->Err_0 == (
                ContractError::CourseNotFound {})
                &&& old(store)@.has_course(course_id@) && !enrolled(
                    old(store)@.course_of(course_id@).participants,
                    sender@,
                ) ==> r is Err && r->Err_0 == (ContractError::NotEnrolled {})
                &&& r is Ok ==> unenroll_applied(old(store)@, final(store)@, course_id@, sender@)
            },
        },
{
    match msg {
        ExecuteMsg::CreateCourse { course_id, name } => {
            execute_create_course(store, sender, course_id, name)
        },
        ExecuteMsg::Enroll { course_id, role } => execute_enroll(store, sender, course_id, role),
        ExecuteMsg::Unenroll { course_id } => execute_unenroll(store, sender, course_id),
    }
}

/// List every course record, in ascending course id order.
pub fn query_all_courses(store: &Store) -> (r: AllCoursesResponse)
    ensures
        r.courses@.len() == store@.courses.len(),
        forall|i: int| 0 <= i < r.courses@.len() ==> (#[trigger] r.courses@[i])@
            == store@.courses[i].1,
{
    AllCoursesResponse { courses: store.all_courses() }
}

/// Fetch the course under an id; a missing id is a successful query with an
/// absent payload, not an error.
pub fn query_course(store: &Store, course_id: String) -> (r: CourseResponse)
    requires
        store@.sorted(),
    ensures
        r.course is Some <==> store@.has_course(course_id@),
        r.course is Some ==> r.course->0@ == store@.course_of(course_id@),
{
    CourseResponse { course: store.course_get(&course_id) }
}

/// Answer one read-only query.
pub fn query(store: &Store, msg: QueryMsg) -> (r: QueryAnswer)
    requires
        store@.sorted(),
    ensures
        match msg {
            QueryMsg::AllCourses {  } => r matches QueryAnswer::AllCourses(resp)
                && resp.courses@.len() == store@.courses.len() && (forall|i: int|
                0 <= i < resp.courses@.len() ==> (#[trigger] resp.courses@[i])@
                    == store@.courses[i].1),
            QueryMsg::Course { course_id } => r matches QueryAnswer::Course(resp) && (resp.course
                is Some <==> store@.has_course(course_id@)) && (resp.course is Some
                ==> resp.course->0@ == store@.course_of(course_id@)),
        },
{
    match msg {
        QueryMsg::AllCourses {  } => QueryAnswer::AllCourses(query_all_courses(store)),
        QueryMsg::Course { course_id } => QueryAnswer::Course(query_course(store, course_id)),
    }
}

/// Enrollment uniqueness: once an enrollment by `who` succeeds, the store
/// shows `who` enrolled, so by the enrollment contract every further
/// enrollment by `who` in that course fails until one of `who`'s
/// unenrollments succeeds.
pub proof fn lemma_enrollment_unique(
    pre: StoreView,
    post: StoreView,
    id: Seq<char>,
    who: Seq<char>,
    role: Role,
)
    requires
        pre.wf(),
        can_enroll(pre, id, who),
        enroll_applied(pre, post, id, who, role),
    ensures
        !can_enroll(post, id, who),
{
    lemma_pre_course_wf(pre, id);
    lemma_enroll_roster(pre.course_of(id).participants, who, role);
}

/// After a successful unenrollment by `who`, the course no longer shows
/// `who`, so by the enrollment contract `who` may enroll again.
pub proof fn lemma_unenroll_reenables(pre: StoreView, post: StoreView, id: Seq<char>, who: Seq<
    char,
>)
    requires
        pre.wf(),
        can_unenroll(pre, id, who),
        unenroll_applied(pre, post, id, who),
    ensures
        can_enroll(post, id, who),
{
    lemma_pre_course_wf(pre, id);
    lemma_unenroll_roster(pre.course_of(id).participants, who);
}

/// Round trip, enrollment half: right after a successful enrollment the
/// course shows the account present under exactly the chosen role, and
/// every other account's standing is untouched.
pub proof fn lemma_enroll_round_trip(
    pre: StoreView,
    post: StoreView,
    id: Seq<char>,
    who: Seq<char>,
    role: Role,
)
    requires
        pre.wf(),
        can_enroll(pre, id, who),
        enroll_applied(pre, post, id, who, role),
    ensures
        enrolled_as(post.course_of(id).participants, who, role),
        forall|r2: Role| enrolled_as(post.course_of(id).participants, who, r2) ==> r2 == role,
        forall|other: Seq<char>|
            other != who ==> enrolled(post.course_of(id).participants, other) == enrolled(
                pre.course_of(id).participants,
                other,
            ),
{
    lemma_pre_course_wf(pre, id);
    lemma_enroll_roster(pre.course_of(id).participants, who, role);
}

/// Round trip, unenrollment half: right after a successful unenrollment the
/// course shows the account absent, and every other account keeps its entry
/// and role.
pub proof fn lemma_unenroll_round_trip(pre: StoreView, post: StoreView, id: Seq<char>, who: Seq<
    char,
>)
    requires
        pre.wf(),
        can_unenroll(pre, id, who),
        unenroll_applied(pre, post, id, who),
    ensures
        !enrolled(post.course_of(id).participants, who),
        forall|other: Seq<char>, r2: Role|
            other != who ==> enrolled_as(post.course_of(id).participants, other, r2) == enrolled_as(
                pre.course_of(id).participants,
                other,
                r2,
            ),
{
    lemma_pre_course_wf(pre, id);
    lemma_unenroll_roster(pre.course_of(id).participants, who);
}

/// Listing completeness: a well-formed store lists one entry per stored
/// course id, in strictly ascending id order, and the entry under each id
/// is exactly what the per-id query returns.
pub proof fn lemma_listing_complete(s: StoreView)
    requires
        s.wf(),
    ensures
        forall|i: int, j: int|
            0 <= i < j < s.courses.len() ==> #[trigger] lex_lt(s.courses[i].0, s.courses[j].0),
        forall|i: int|
            0 <= i < s.courses.len() ==> s.has_course(#[trigger] s.courses[i].0) && s.course_of(
                s.courses[i].0,
            ) == s.courses[i].1,
{
    assert forall|i: int|
        0 <= i < s.courses.len() implies s.has_course(#[trigger] s.courses[i].0) && s.course_of(
        s.courses[i].0,
    ) == s.courses[i].1 by {
        lemma_course_at(s, i);
    }
}

/// A stored course satisfies the course invariant.
proof fn lemma_pre_course_wf(s: StoreView, id: Seq<char>)
    requires
        s.wf(),
        s.has_course(id),
    ensures
        s.course_of(id).wf(),
{
    lemma_course_at(s, s.course_index(id));
}

} // verus!
