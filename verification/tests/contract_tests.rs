use course_registry::contract::{execute, instantiate, query};
use course_registry::error::ContractError;
use course_registry::msg::{ExecuteMsg, InstantiateMsg, QueryAnswer, QueryMsg};
use course_registry::state::Role;
use course_registry::store::Store;

const ADDR1: &str = "addr1";
const ADDR2: &str = "addr2";

fn ok<T, E>(r: Result<T, E>) -> T {
    match r {
        Ok(v) => v,
        Err(_) => panic!("expected success"),
    }
}

fn err<T, E>(r: Result<T, E>) -> E {
    match r {
        Ok(_) => panic!("expected failure"),
        Err(e) => e,
    }
}

#[test]
fn test_instantiate() {
    let mut store = Store::new();
    let msg = InstantiateMsg { admin: None };
    let res = ok(instantiate(&mut store, ADDR1.to_string(), msg));

    assert_eq!(
        res.attributes,
        vec![
            ("action".to_string(), "instantiate".to_string()),
            ("admin".to_string(), ADDR1.to_string()),
        ]
    )
}

#[test]
fn test_instantiate_with_admin() {
    let mut store = Store::new();
    let msg = InstantiateMsg {
        admin: Some(ADDR2.to_string()),
    };
    let res = ok(instantiate(&mut store, ADDR1.to_string(), msg));

    assert_eq!(
        res.attributes,
        vec![
            ("action".to_string(), "instantiate".to_string()),
            ("admin".to_string(), ADDR2.to_string()),
        ]
    )
}

#[test]
fn test_execute_create_course_valid() {
    let mut store = Store::new();
    let msg = InstantiateMsg { admin: None };
    let _res = ok(instantiate(&mut store, ADDR1.to_string(), msg));

    let msg = ExecuteMsg::CreateCourse {
        course_id: "some_id".to_string(),
        name: "Salsa Beginners 1".to_string(),
    };

    let _res = ok(execute(&mut store, ADDR1.to_string(), msg));
}

#[test]
fn test_execute_create_course_invalid() {
    let mut store = Store::new();
    let msg = InstantiateMsg {
        admin: Some(ADDR2.to_string()),
    };
    let _res = ok(instantiate(&mut store, ADDR1.to_string(), msg));

    let msg = ExecuteMsg::CreateCourse {
        course_id: "some_id".to_string(),
        name: "Salsa Beginners 1".to_string(),
    };

    let _err = err(execute(&mut store, ADDR1.to_string(), msg));
}

#[test]
fn test_execute_enroll_valid() {
    let mut store = Store::new();
    let msg = InstantiateMsg { admin: None };
    let _res = ok(instantiate(&mut store, ADDR1.to_string(), msg));

    let msg = ExecuteMsg::CreateCourse {
        course_id: "some_id".to_string(),
        name: "Salsa Beginners 1".to_string(),
    };

    let _res = ok(execute(&mut store, ADDR1.to_string(), msg));

    let msg = ExecuteMsg::Enroll {
        course_id: "some_id".to_string(),
        role: Role::Leader {},
    };
    let _res = ok(execute(&mut store, ADDR1.to_string(), msg));
}

#[test]
fn test_execute_enroll_invalid() {
    let mut store = Store::new();
    let msg = InstantiateMsg { admin: None };
    let _res = ok(instantiate(&mut store, ADDR1.to_string(), msg));

    let msg = ExecuteMsg::CreateCourse {
        course_id: "some_id".to_string(),
        name: "Salsa Beginners 1".to_string(),
    };

    let _res = ok(execute(&mut store, ADDR1.to_string(), msg));

    let msg = ExecuteMsg::Enroll {
        course_id: "wrong_id".to_string(),
        role: Role::Leader {},
    };
    let _err = err(execute(&mut store, ADDR1.to_string(), msg));

    let msg = ExecuteMsg::Enroll {
        course_id: "some_id".to_string(),
        role: Role::Leader {},
    };
    let _res = ok(execute(&mut store, ADDR1.to_string(), msg.clone()));
    let _err = err(execute(&mut store, ADDR1.to_string(), msg));
}

#[test]
fn test_execute_unenroll_valid() {
    let mut store = Store::new();
    let msg = InstantiateMsg { admin: None };
    let _res = ok(instantiate(&mut store, ADDR1.to_string(), msg));

    let msg = ExecuteMsg::CreateCourse {
        course_id: "some_id".to_string(),
        name: "Salsa Beginners 1".to_string(),
    };

    let _res = ok(execute(&mut store, ADDR1.to_string(), msg));

    let msg = ExecuteMsg::Enroll {
        course_id: "some_id".to_string(),
        role: Role::Leader {},
    };
    let _res = ok(execute(&mut store, ADDR1.to_string(), msg));

    let msg = ExecuteMsg::Unenroll {
        course_id: "some_id".to_string(),
    };
    let _res = ok(execute(&mut store, ADDR1.to_string(), msg));
}

#[test]
fn test_execute_unenroll_invalid() {
    let mut store = Store::new();
    let msg = InstantiateMsg { admin: None };
    let _res = ok(instantiate(&mut store, ADDR1.to_string(), msg));

    let msg = ExecuteMsg::CreateCourse {
        course_id: "some_id".to_string(),
        name: "Salsa Beginners 1".to_string(),
    };

    let _res = ok(execute(&mut store, ADDR1.to_string(), msg));

    let msg = ExecuteMsg::Enroll {
        course_id: "some_id".to_string(),
        role: Role::Leader {},
    };
    let _res = ok(execute(&mut store, ADDR1.to_string(), msg));

    let msg = ExecuteMsg::Unenroll {
        course_id: "wrong_id".to_string(),
    };
    let _err = err(execute(&mut store, ADDR1.to_string(), msg));

    let msg = ExecuteMsg::Unenroll {
        course_id: "some_id".to_string(),
    };
    let _res = ok(execute(&mut store, ADDR1.to_string(), msg.clone()));
    let _err = err(execute(&mut store, ADDR1.to_string(), msg));
}

#[test]
fn test_query_all_courses() {
    let mut store = Store::new();
    let msg = InstantiateMsg { admin: None };
    let _res = ok(instantiate(&mut store, ADDR1.to_string(), msg));

    let msg = ExecuteMsg::CreateCourse {
        course_id: "some_id_1".to_string(),
        name: "Salsa Beginners 1".to_string(),
    };
    let _res = ok(execute(&mut store, ADDR1.to_string(), msg));

    let msg = ExecuteMsg::CreateCourse {
        course_id: "some_id_2".to_string(),
        name: "Bachata Beginners 1".to_string(),
    };
    let _res = ok(execute(&mut store, ADDR1.to_string(), msg));

    let msg = QueryMsg::AllCourses {};
    let res = match query(&store, msg) {
        QueryAnswer::AllCourses(r) => r,
        QueryAnswer::Course(_) => panic!("wrong payload"),
    };
    assert_eq!(res.courses.len(), 2);
}

#[test]
fn test_query_course() {
    let mut store = Store::new();
    let msg = InstantiateMsg { admin: None };
    let _res = ok(instantiate(&mut store, ADDR1.to_string(), msg));

    let msg = ExecuteMsg::CreateCourse {
        course_id: "some_id_1".to_string(),
        name: "Salsa Beginners 1".to_string(),
    };
    let _res = ok(execute(&mut store, ADDR1.to_string(), msg));

    let msg = QueryMsg::Course {
        course_id: "some_id_1".to_string(),
    };
    let res = match query(&store, msg) {
        QueryAnswer::Course(r) => r,
        QueryAnswer::AllCourses(_) => panic!("wrong payload"),
    };
    assert!(res.course.is_some());

    let msg = QueryMsg::Course {
        course_id: "some_id_not_exist".to_string(),
    };
    let res = match query(&store, msg) {
        QueryAnswer::Course(r) => r,
        QueryAnswer::AllCourses(_) => panic!("wrong payload"),
    };
    assert!(res.course.is_none());
}

#[test]
fn instantiate_rejects_short_admin() {
    let mut store = Store::new();
    let msg = InstantiateMsg {
        admin: Some("ab".to_string()),
    };
    let e = err(instantiate(&mut store, ADDR1.to_string(), msg));
    assert_eq!(e, ContractError::InvalidAddress {});
}

#[test]
fn instantiate_rejects_uppercase_admin() {
    let mut store = Store::new();
    let msg = InstantiateMsg {
        admin: Some("ADDR2".to_string()),
    };
    let e = err(instantiate(&mut store, ADDR1.to_string(), msg));
    assert_eq!(e, ContractError::InvalidAddress {});
}

#[test]
fn create_course_unauthorized_error() {
    let mut store = Store::new();
    let _res = ok(instantiate(&mut store, ADDR1.to_string(), InstantiateMsg { admin: None }));
    let e = err(execute(
        &mut store,
        ADDR2.to_string(),
        ExecuteMsg::CreateCourse {
            course_id: "c1".to_string(),
            name: "Salsa".to_string(),
        },
    ));
    assert_eq!(e, ContractError::Unauthorized {});
}

#[test]
fn create_course_overwrites_roster() {
    let mut store = Store::new();
    let _res = ok(instantiate(&mut store, ADDR1.to_string(), InstantiateMsg { admin: None }));
    let _res = ok(execute(
        &mut store,
        ADDR1.to_string(),
        ExecuteMsg::CreateCourse {
            course_id: "c1".to_string(),
            name: "Salsa".to_string(),
        },
    ));
    let _res = ok(execute(
        &mut store,
        ADDR2.to_string(),
        ExecuteMsg::Enroll {
            course_id: "c1".to_string(),
            role: Role::Follower {},
        },
    ));
    // recreating the id silently resets the roster and may rename
    let _res = ok(execute(
        &mut store,
        ADDR1.to_string(),
        ExecuteMsg::CreateCourse {
            course_id: "c1".to_string(),
            name: "Salsa 2".to_string(),
        },
    ));
    let res = match query(
        &store,
        QueryMsg::Course {
            course_id: "c1".to_string(),
        },
    ) {
        QueryAnswer::Course(r) => r,
        QueryAnswer::AllCourses(_) => panic!("wrong payload"),
    };
    let course = res.course.expect("course must exist");
    assert_eq!(course.name, "Salsa 2".to_string());
    assert_eq!(course.participants.len(), 0);
}

#[test]
fn enroll_errors() {
    let mut store = Store::new();
    let _res = ok(instantiate(&mut store, ADDR1.to_string(), InstantiateMsg { admin: None }));
    let e = err(execute(
        &mut store,
        ADDR2.to_string(),
        ExecuteMsg::Enroll {
            course_id: "missing".to_string(),
            role: Role::Leader {},
        },
    ));
    assert_eq!(e, ContractError::CourseNotFound {});

    let _res = ok(execute(
        &mut store,
        ADDR1.to_string(),
        ExecuteMsg::CreateCourse {
            course_id: "c1".to_string(),
            name: "Salsa".to_string(),
        },
    ));
    let _res = ok(execute(
        &mut store,
        ADDR2.to_string(),
        ExecuteMsg::Enroll {
            course_id: "c1".to_string(),
            role: Role::Leader {},
        },
    ));
    let e = err(execute(
        &mut store,
        ADDR2.to_string(),
        ExecuteMsg::Enroll {
            course_id: "c1".to_string(),
            role: Role::Follower {},
        },
    ));
    assert_eq!(e, ContractError::AlreadyEnrolled {});
}

#[test]
fn unenroll_errors() {
    let mut store = Store::new();
    let _res = ok(instantiate(&mut store, ADDR1.to_string(), InstantiateMsg { admin: None }));
    let e = err(execute(
        &mut store,
        ADDR2.to_string(),
        ExecuteMsg::Unenroll {
            course_id: "missing".to_string(),
        },
    ));
    assert_eq!(e, ContractError::CourseNotFound {});

    let _res = ok(execute(
        &mut store,
        ADDR1.to_string(),
        ExecuteMsg::CreateCourse {
            course_id: "c1".to_string(),
            name: "Salsa".to_string(),
        },
    ));
    let e = err(execute(
        &mut store,
        ADDR2.to_string(),
        ExecuteMsg::Unenroll {
            course_id: "c1".to_string(),
        },
    ));
    assert_eq!(e, ContractError::NotEnrolled {});
}

#[test]
fn enroll_round_trip_shows_role() {
    let mut store = Store::new();
    let _res = ok(instantiate(&mut store, ADDR1.to_string(), InstantiateMsg { admin: None }));
    let _res = ok(execute(
        &mut store,
        ADDR1.to_string(),
        ExecuteMsg::CreateCourse {
            course_id: "c1".to_string(),
            name: "Salsa".to_string(),
        },
    ));
    let _res = ok(execute(
        &mut store,
        ADDR2.to_string(),
        ExecuteMsg::Enroll {
            course_id: "c1".to_string(),
            role: Role::Follower {},
        },
    ));
    let res = match query(
        &store,
        QueryMsg::Course {
            course_id: "c1".to_string(),
        },
    ) {
        QueryAnswer::Course(r) => r,
        QueryAnswer::AllCourses(_) => panic!("wrong payload"),
    };
    let course = res.course.expect("course must exist");
    assert_eq!(course.participants.len(), 1);
    assert_eq!(course.participants[0].0, ADDR2.to_string());
    assert_eq!(course.participants[0].1, Role::Follower {});

    let _res = ok(execute(
        &mut store,
        ADDR2.to_string(),
        ExecuteMsg::Unenroll {
            course_id: "c1".to_string(),
        },
    ));
    let res = match query(
        &store,
        QueryMsg::Course {
            course_id: "c1".to_string(),
        },
    ) {
        QueryAnswer::Course(r) => r,
        QueryAnswer::AllCourses(_) => panic!("wrong payload"),
    };
    let course = res.course.expect("course must exist");
    assert_eq!(course.participants.len(), 0);
}

#[test]
fn unenroll_swaps_last_entry_into_place() {
    let mut store = Store::new();
    let _res = ok(instantiate(&mut store, ADDR1.to_string(), InstantiateMsg { admin: None }));
    let _res = ok(execute(
        &mut store,
        ADDR1.to_string(),
        ExecuteMsg::CreateCourse {
            course_id: "c1".to_string(),
            name: "Salsa".to_string(),
        },
    ));
    for who in ["alice", "bob", "carol"] {
        let _res = ok(execute(
            &mut store,
            who.to_string(),
            ExecuteMsg::Enroll {
                course_id: "c1".to_string(),
                role: Role::Leader {},
            },
        ));
    }
    let _res = ok(execute(
        &mut store,
        "alice".to_string(),
        ExecuteMsg::Unenroll {
            course_id: "c1".to_string(),
        },
    ));
    let res = match query(
        &store,
        QueryMsg::Course {
            course_id: "c1".to_string(),
        },
    ) {
        QueryAnswer::Course(r) => r,
        QueryAnswer::AllCourses(_) => panic!("wrong payload"),
    };
    let course = res.course.expect("course must exist");
    let names: Vec<String> = course.participants.iter().map(|p| p.0.clone()).collect();
    assert_eq!(names, vec!["carol".to_string(), "bob".to_string()]);
}

#[test]
fn all_courses_ascending_by_id() {
    let mut store = Store::new();
    let _res = ok(instantiate(&mut store, ADDR1.to_string(), InstantiateMsg { admin: None }));
    for (id, name) in [("m2", "Bachata"), ("a1", "Salsa"), ("z9", "Kizomba")] {
        let _res = ok(execute(
            &mut store,
            ADDR1.to_string(),
            ExecuteMsg::CreateCourse {
                course_id: id.to_string(),
                name: name.to_string(),
            },
        ));
    }
    let res = match query(&store, QueryMsg::AllCourses {}) {
        QueryAnswer::AllCourses(r) => r,
        QueryAnswer::Course(_) => panic!("wrong payload"),
    };
    let names: Vec<String> = res.courses.iter().map(|c| c.name.clone()).collect();
    assert_eq!(
        names,
        vec!["Salsa".to_string(), "Bachata".to_string(), "Kizomba".to_string()]
    );
    // each listed entry matches what the per-id query returns
    for (i, id) in ["a1", "m2", "z9"].iter().enumerate() {
        let res = match query(
            &store,
            QueryMsg::Course {
                course_id: id.to_string(),
            },
        ) {
            QueryAnswer::Course(r) => r,
            QueryAnswer::AllCourses(_) => panic!("wrong payload"),
        };
        let course = res.course.expect("course must exist");
        assert_eq!(course.name, names[i]);
    }
}

#[test]
fn full_lifecycle() {
    // instantiate with no explicit admin: the invoker becomes the admin
    let mut store = Store::new();
    let res = ok(instantiate(&mut store, ADDR1.to_string(), InstantiateMsg { admin: None }));
    assert_eq!(
        res.attributes,
        vec![
            ("action".to_string(), "instantiate".to_string()),
            ("admin".to_string(), ADDR1.to_string()),
        ]
    );

    let _res = ok(execute(
        &mut store,
        ADDR1.to_string(),
        ExecuteMsg::CreateCourse {
            course_id: "c1".to_string(),
            name: "Salsa Beginners 1".to_string(),
        },
    ));

    let _res = ok(execute(
        &mut store,
        ADDR2.to_string(),
        ExecuteMsg::Enroll {
            course_id: "c1".to_string(),
            role: Role::Leader {},
        },
    ));
    let e = err(execute(
        &mut store,
        ADDR2.to_string(),
        ExecuteMsg::Enroll {
            course_id: "c1".to_string(),
            role: Role::Leader {},
        },
    ));
    assert_eq!(e, ContractError::AlreadyEnrolled {});

    let _res = ok(execute(
        &mut store,
        ADDR2.to_string(),
        ExecuteMsg::Unenroll {
            course_id: "c1".to_string(),
        },
    ));
    let e = err(execute(
        &mut store,
        ADDR2.to_string(),
        ExecuteMsg::Unenroll {
            course_id: "c1".to_string(),
        },
    ));
    assert_eq!(e, ContractError::NotEnrolled {});

    let res = match query(
        &store,
        QueryMsg::Course {
            course_id: "c1".to_string(),
        },
    ) {
        QueryAnswer::Course(r) => r,
        QueryAnswer::AllCourses(_) => panic!("wrong payload"),
    };
    let course = res.course.expect("course must exist");
    assert_eq!(course.participants.len(), 0);

    let res = match query(
        &store,
        QueryMsg::Course {
            course_id: "nonexistent".to_string(),
        },
    ) {
        QueryAnswer::Course(r) => r,
        QueryAnswer::AllCourses(_) => panic!("wrong payload"),
    };
    assert!(res.course.is_none());
}
