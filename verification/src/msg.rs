//! The command and query envelopes the registry is invoked with, and the
//! typed payloads its queries return. The host's dispatch layer decodes the
//! wire format and hands these in already typed, together with the invoking
//! account's authenticated identity.

use vstd::prelude::*;

use crate::state::{Course, Role};

verus! {

/// Initialization input: an optional explicit admin identifier. When absent
/// the invoker becomes the admin.
pub struct InstantiateMsg {
    pub admin: Option<String>,
}

/// The three mutating commands.
#[derive(Clone)]
pub enum ExecuteMsg {
    CreateCourse { course_id: String, name: String },
    Enroll { course_id: String, role: Role },
    Unenroll { course_id: String },
}

/// The two read-only queries.
pub enum QueryMsg {
    AllCourses {},
    Course { course_id: String },
}

/// No migration is supported: no command processor consumes this envelope.
/// (An uninhabited enum would say so more strongly, but the verifier asks
/// every datatype to have at least one variant.)
pub enum MigrateMsg {
    Unsupported {},
}

/// Payload of the `AllCourses` query: every course record, in ascending
/// order of course id.
pub struct AllCoursesResponse {
    pub courses: Vec<Course>,
}

/// Payload of the `Course` query: the record, or absent when the id has
/// none (a successful outcome, not an error).
pub struct CourseResponse {
    pub course: Option<Course>,
}

/// Typed result of a query dispatch: which payload came back.
pub enum QueryAnswer {
    AllCourses(AllCoursesResponse),
    Course(CourseResponse),
}

/// Acknowledgment of a successful command: diagnostic key/value attributes
/// for external auditing, not consumed by the registry itself.
pub struct Response {
    pub attributes: Vec<(String, String)>,
}

impl Response {
    /// An acknowledgment with no attributes.
    pub fn new() -> (r: Response)
        ensures
            r.attributes@ == Seq::<(String, String)>::empty(),
    {
        Response { attributes: Vec::new() }
    }

    /// The same acknowledgment with one more attribute appended.
    pub fn add_attribute(self, key: String, value: String) -> (r: Response)
        ensures
            r.attributes@ == self.attributes@.push((key, value)),
    {
        let mut attributes = self.attributes;
        attributes.push((key, value));
        Response { attributes }
    }
}

} // verus!
