//! The storage layer: a single slot for the configuration and a collection
//! of course records keyed by course id, kept in ascending lexicographic
//! key order. Saving is an upsert; loading a missing course is absent-safe;
//! listing walks the whole collection in key order.

use vstd::prelude::*;

use crate::order::{lemma_lex_lt_irrefl, lemma_lex_lt_total, lemma_lex_lt_trans, lex_lt, str_lt};
use crate::state::{Config, ConfigView, Course, CourseView, Role};

verus! {

/// The persistent state: the configuration slot and the course records,
/// sorted by course id.
pub struct Store {
    config: Option<Config>,
    courses: Vec<(String, Course)>,
}

/// The mathematical value of a `Store`: the configuration, if written, and
/// the sequence of (course id, course) entries in ascending id order.
#[verifier::ext_equal]
pub struct StoreView {
    pub config: Option<ConfigView>,
    pub courses: Seq<(Seq<char>, CourseView)>,
}

impl View for Store {
    type V = StoreView;

    closed spec fn view(&self) -> StoreView {
        StoreView {
            config: match self.config {
                Some(c) => Some(c@),
                None => None,
            },
            courses: self.courses@.map_values(|e: (String, Course)| (e.0@, e.1@)),
        }
    }
}

impl StoreView {
    /// The configured admin account. Meaningful once the configuration slot
    /// has been written.
    pub open spec fn admin(self) -> Seq<char> {
        self.config->0.admin
    }

    /// The course keys are strictly ascending, so each key occurs once.
    pub open spec fn sorted(self) -> bool {
        forall|i: int, j: int|
            0 <= i < j < self.courses.len() ==> #[trigger] lex_lt(
                self.courses[i].0,
                self.courses[j].0,
            )
    }

    /// Every stored course satisfies the course invariant.
    pub open spec fn courses_wf(self) -> bool {
        forall|i: int| 0 <= i < self.courses.len() ==> (#[trigger] self.courses[i]).1.wf()
    }

    /// The store invariant: ascending keys and well-formed courses.
    pub open spec fn wf(self) -> bool {
        self.sorted() && self.courses_wf()
    }

    /// Some entry carries this course id.
    pub open spec fn has_course(self, id: Seq<char>) -> bool {
        exists|i: int| 0 <= i < self.courses.len() && (#[trigger] self.courses[i]).0 == id
    }

    /// The index of the entry carrying this course id (unique when sorted).
    pub open spec fn course_index(self, id: Seq<char>) -> int {
        choose|i: int| 0 <= i < self.courses.len() && (#[trigger] self.courses[i]).0 == id
    }

    /// The course stored under this id.
    pub open spec fn course_of(self, id: Seq<char>) -> CourseView {
        self.courses[self.course_index(id)].1
    }
}

/// In a sorted store two entries with one key are one entry.
pub proof fn lemma_sorted_key_unique(s: StoreView, i: int, j: int)
    requires
        s.sorted(),
        0 <= i < s.courses.len(),
        0 <= j < s.courses.len(),
        s.courses[i].0 == s.courses[j].0,
    ensures
        i == j,
{
    lemma_lex_lt_irrefl(s.courses[i].0);
}

/// In a sorted store the entry at `i` is the one its key looks up.
pub proof fn lemma_course_at(s: StoreView, i: int)
    requires
        s.sorted(),
        0 <= i < s.courses.len(),
    ensures
        s.has_course(s.courses[i].0),
        s.course_index(s.courses[i].0) == i,
        s.course_of(s.courses[i].0) == s.courses[i].1,
{
    assert(s.has_course(s.courses[i].0));
    lemma_sorted_key_unique(s, i, s.course_index(s.courses[i].0));
}

/// Clone one course record.
fn clone_course(c: &Course) -> (r: Course)
    ensures
        r@ == c@,
{
    let mut participants: Vec<(String, Role)> = Vec::new();
    let n = c.participants.len();
    let mut i: usize = 0;
    while i < n
        invariant
            i <= n,
            n == c.participants.len(),
            participants@.len() == i as int,
            forall|j: int|
                0 <= j < i ==> (#[trigger] participants@[j]).0@ == c.participants@[j].0@
                    && participants@[j].1 == c.participants@[j].1,
        decreases n - i,
    {
        let entry = &c.participants[i];
        participants.push((entry.0.clone(), entry.1));
        i = i + 1;
    }
    let r = Course { name: c.name.clone(), participants };
    proof {
        assert(r@.participants =~= c@.participants);
        assert(r@ =~= c@);
    }
    r
}

impl Store {
    /// An empty store: no configuration, no courses.
    pub fn new() -> (s: Store)
        ensures
            s@.config is None,
            s@.courses == Seq::<(Seq<char>, CourseView)>::empty(),
            s@.wf(),
    {
        let s = Store { config: None, courses: Vec::new() };
        proof {
            assert(s@.courses =~= Seq::<(Seq<char>, CourseView)>::empty());
        }
        s
    }

    /// Write the configuration slot (an upsert).
    pub fn config_save(&mut self, config: Config)
        ensures
            final(self)@.config == Some(config@),
            final(self)@.courses == old(self)@.courses,
    {
        self.config = Some(config);
    }

    /// Read the configuration slot; absent when never written.
    pub fn config_get(&self) -> (r: Option<Config>)
        ensures
            match r {
                Some(c) => self@.config == Some(c@),
                None => self@.config is None,
            },
    {
        match &self.config {
            Some(c) => Some(Config { admin: c.admin.clone() }),
            None => None,
        }
    }

    /// The first position whose key is not below `id`; all keys before it
    /// are below `id`.
    fn find_slot(&self, id: &String) -> (r: usize)
        requires
            self@.sorted(),
        ensures
            r <= self@.courses.len(),
            forall|j: int| 0 <= j < r ==> lex_lt((#[trigger] self@.courses[j]).0, id@),
            r < self@.courses.len() ==> !lex_lt(self@.courses[r as int].0, id@),
    {
        let n = self.courses.len();
        let mut i: usize = 0;
        while i < n
            invariant
                i <= n,
                n == self@.courses.len(),
                self@.sorted(),
                forall|j: int| 0 <= j < i ==> lex_lt((#[trigger] self@.courses[j]).0, id@),
            decreases n - i,
        {
            let entry = &self.courses[i];
            if !str_lt(entry.0.as_str(), id.as_str()) {
                return i;
            }
            i = i + 1;
        }
        i
    }

    /// Save a course under an id: create it, or overwrite whatever the id
    /// held before. Every other entry is untouched, and the key order is
    /// kept.
    pub fn course_save(&mut self, id: &String, course: Course)
        requires
            old(self)@.wf(),
            course@.wf(),
        ensures
            final(self)@.wf(),
            final(self)@.config == old(self)@.config,
            final(self)@.has_course(id@),
            final(self)@.course_of(id@) == course@,
            forall|k: Seq<char>|
                k != id@ ==> final(self)@.has_course(k) == old(self)@.has_course(k),
            forall|k: Seq<char>|
                k != id@ && old(self)@.has_course(k) ==> final(self)@.course_of(k) == old(
                    self,
                )@.course_of(k),
            old(self)@.has_course(id@) ==> final(self)@.courses.len() == old(
                self,
            )@.courses.len(),
            !old(self)@.has_course(id@) ==> final(self)@.courses.len() == old(self)@.courses.len()
                + 1,
    {
        let ghost pre = self@;
        let i = self.find_slot(id);
        let replace = i < self.courses.len() && self.courses[i].0 == *id;
        if replace {
            self.courses.remove(i);
            self.courses.insert(i, (id.clone(), course));
            proof {
                assert(self@.courses =~= pre.courses.update(i as int, (id@, course@)));
                lemma_save_replace(pre, self@, i as int, id@, course@);
            }
        } else {
            self.courses.insert(i, (id.clone(), course));
            proof {
                assert(self@.courses =~= pre.courses.insert(i as int, (id@, course@)));
                assert forall|j: int|
                    i <= j < pre.courses.len() implies lex_lt(
                    id@,
                    (#[trigger] pre.courses[j]).0,
                ) by {
                    lemma_lex_lt_total(pre.courses[i as int].0, id@);
                    if j > i {
                        lemma_lex_lt_trans(id@, pre.courses[i as int].0, pre.courses[j].0);
                    }
                }
                lemma_save_insert(pre, self@, i as int, id@, course@);
            }
        }
    }

    /// Load the course under an id, or absent when the id has none.
    pub fn course_get(&self, id: &String) -> (r: Option<Course>)
        requires
            self@.sorted(),
        ensures
            match r {
                Some(c) => self@.has_course(id@) && c@ == self@.course_of(id@),
                None => !self@.has_course(id@),
            },
    {
        let n = self.courses.len();
        let mut i: usize = 0;
        while i < n
            invariant
                i <= n,
                n == self@.courses.len(),
                self@.sorted(),
                forall|j: int| 0 <= j < i ==> (#[trigger] self@.courses[j]).0 != id@,
            decreases n - i,
        {
            let entry = &self.courses[i];
            if entry.0 == *id {
                let c = clone_course(&entry.1);
                proof {
                    lemma_course_at(self@, i as int);
                }
                return Some(c);
            }
            i = i + 1;
        }
        None
    }

    /// Every course record, in ascending order of course id.
    pub fn all_courses(&self) -> (r: Vec<Course>)
        ensures
            r@.len() == self@.courses.len(),
            forall|i: int| 0 <= i < r@.len() ==> (#[trigger] r@[i])@ == self@.courses[i].1,
    {
        let n = self.courses.len();
        let mut r: Vec<Course> = Vec::new();
        let mut i: usize = 0;
        while i < n
            invariant
                i <= n,
                n == self@.courses.len(),
                r@.len() == i as int,
                forall|j: int| 0 <= j < i ==> (#[trigger] r@[j])@ == self@.courses[j].1,
            decreases n - i,
    {
            let entry = &self.courses[i];
            r.push(clone_course(&entry.1));
            i = i + 1;
        }
        r
    }

    /// Every (course id, course) entry, in ascending order of course id.
    pub fn course_entries(&self) -> (r: Vec<(String, Course)>)
        ensures
            r@.len() == self@.courses.len(),
            forall|i: int|
                0 <= i < r@.len() ==> (#[trigger] r@[i]).0@ == self@.courses[i].0 && r@[i].1@
                    == self@.courses[i].1,
    {
        let n = self.courses.len();
        let mut r: Vec<(String, Course)> = Vec::new();
        let mut i: usize = 0;
        while i < n
            invariant
                i <= n,
                n == self@.courses.len(),
                r@.len() == i as int,
                forall|j: int|
                    0 <= j < i ==> (#[trigger] r@[j]).0@ == self@.courses[j].0 && r@[j].1@
                        == self@.courses[j].1,
            decreases n - i,
        {
            let entry = &self.courses[i];
            r.push((entry.0.clone(), clone_course(&entry.1)));
            i = i + 1;
        }
        r
    }
}

/// An update in place at the slot whose key is the saved id keeps the
/// invariant and changes exactly that id's course.
proof fn lemma_save_replace(pre: StoreView, post: StoreView, i: int, id: Seq<char>, c: CourseView)
    requires
        pre.wf(),
        c.wf(),
        0 <= i < pre.courses.len(),
        pre.courses[i].0 == id,
        post.config == pre.config,
        post.courses == pre.courses.update(i, (id, c)),
    ensures
        post.wf(),
        post.has_course(id),
        post.course_of(id) == c,
        forall|k: Seq<char>| k != id ==> post.has_course(k) == pre.has_course(k),
        forall|k: Seq<char>| k != id && pre.has_course(k) ==> post.course_of(k) == pre.course_of(k),
        post.courses.len() == pre.courses.len(),
        pre.has_course(id),
{
    assert(forall|j: int|
        0 <= j < post.courses.len() ==> (#[trigger] post.courses[j]).0 == pre.courses[j].0);
    assert(post.sorted());
    lemma_course_at(post, i);
    lemma_course_at(pre, i);
    assert forall|k: Seq<char>| k != id implies post.has_course(k) == pre.has_course(k) by {
        if post.has_course(k) {
            let j = post.course_index(k);
            assert(pre.courses[j].0 == k);
            assert(pre.has_course(k));
        }
        if pre.has_course(k) {
            let j = pre.course_index(k);
            assert(post.courses[j].0 == k);
            assert(post.has_course(k));
        }
    }
    assert forall|k: Seq<char>| k != id && pre.has_course(k) implies post.course_of(k)
        == pre.course_of(k) by {
        let j = pre.course_index(k);
        assert(pre.courses[j].0 == k);
        assert(j != i);
        lemma_course_at(post, j);
    }
}

/// An insertion at the sorted slot of a fresh id keeps the invariant, adds
/// that id, and changes no other id's course.
proof fn lemma_save_insert(pre: StoreView, post: StoreView, i: int, id: Seq<char>, c: CourseView)
    requires
        pre.wf(),
        c.wf(),
        0 <= i <= pre.courses.len(),
        forall|j: int| 0 <= j < i ==> lex_lt((#[trigger] pre.courses[j]).0, id),
        forall|j: int| i <= j < pre.courses.len() ==> lex_lt(id, (#[trigger] pre.courses[j]).0),
        post.config == pre.config,
        post.courses == pre.courses.insert(i, (id, c)),
    ensures
        post.wf(),
        post.has_course(id),
        post.course_of(id) == c,
        forall|k: Seq<char>| k != id ==> post.has_course(k) == pre.has_course(k),
        forall|k: Seq<char>| k != id && pre.has_course(k) ==> post.course_of(k) == pre.course_of(k),
        post.courses.len() == pre.courses.len() + 1,
        !pre.has_course(id),
{
    assert(forall|j: int| 0 <= j < i ==> post.courses[j] == pre.courses[j]);
    assert(post.courses[i] == (id, c));
    assert(forall|j: int| i < j < post.courses.len() ==> post.courses[j] == pre.courses[j - 1]);
    assert forall|p: int, q: int| 0 <= p < q < post.courses.len() implies #[trigger] lex_lt(
        post.courses[p].0,
        post.courses[q].0,
    ) by {
        if p < i && q < i {
        } else if p < i && q == i {
        } else if p == i && q > i {
        } else if p < i && q > i {
            lemma_lex_lt_trans(post.courses[p].0, id, post.courses[q].0);
        }
    }
    assert(post.sorted());
    assert(post.courses_wf());
    lemma_course_at(post, i);
    if pre.has_course(id) {
        let j = pre.course_index(id);
        lemma_lex_lt_irrefl(id);
        assert(false);
    }
    assert forall|k: Seq<char>| k != id implies post.has_course(k) == pre.has_course(k) by {
        if post.has_course(k) {
            let j = post.course_index(k);
            if j < i {
                assert(pre.courses[j].0 == k);
            } else {
                assert(j != i);
                assert(pre.courses[j - 1].0 == k);
            }
            assert(pre.has_course(k));
        }
        if pre.has_course(k) {
            let j = pre.course_index(k);
            if j < i {
                assert(post.courses[j].0 == k);
            } else {
                assert(post.courses[j + 1].0 == k);
            }
            assert(post.has_course(k));
        }
    }
    assert forall|k: Seq<char>| k != id && pre.has_course(k) implies post.course_of(k)
        == pre.course_of(k) by {
        let j = pre.course_index(k);
        assert(pre.courses[j].0 == k);
        lemma_course_at(pre, j);
        if j < i {
            assert(post.courses[j].0 == k);
            lemma_course_at(post, j);
        } else {
            assert(post.courses[j + 1].0 == k);
            lemma_course_at(post, j + 1);
        }
    }
}

} // verus!
