//! The catalog of quizzes a user can pick from, looked up by name.
use crate::quiz::{sources_fault, LoadError, Quiz, ReadyQuiz};
use crate::text::{normalize_input, normalized};
use vstd::prelude::*;

verus! {

/// The quizzes available for a session.
#[derive(Clone, Debug)]
pub struct QuizList(pub Vec<Quiz>);

/// Whether `q` is the quiz that `input` names, both trimmed and lower-cased.
pub open spec fn names_quiz(q: Quiz, input: Seq<char>) -> bool {
    normalized(q.quiz_name@) == normalized(input)
}

/// Whether source `j` repeats the name of an earlier source.
pub open spec fn repeats_earlier(srcs: Seq<ReadyQuiz>, j: int) -> bool {
    exists|i: int| 0 <= i < j && normalized(srcs[i].quiz_name@) == normalized(srcs[j].quiz_name@)
}

/// The first source, from `j` on, whose name repeats an earlier one.
pub open spec fn duplicate_from(srcs: Seq<ReadyQuiz>, j: int) -> Option<LoadError>
    decreases srcs.len() - j,
{
    if j < 0 || j >= srcs.len() {
        None
    } else if repeats_earlier(srcs, j) {
        Some(LoadError::DuplicateQuizName(srcs[j].quiz_name))
    } else {
        duplicate_from(srcs, j + 1)
    }
}

/// Why a catalog cannot be built from `srcs`: first a faulty question, then a
/// repeated name.
pub open spec fn catalog_fault(srcs: Seq<ReadyQuiz>) -> Option<LoadError> {
    match sources_fault(srcs) {
        Some(e) => Some(e),
        None => duplicate_from(srcs, 0),
    }
}

impl QuizList {
    /// No two quizzes share a name, once trimmed and lower-cased.
    pub open spec fn wf(&self) -> bool {
        forall|a: int, b: int|
            0 <= a < b < self.0@.len() ==> normalized(#[trigger] self.0@[a].quiz_name@)
                != normalized(#[trigger] self.0@[b].quiz_name@)
    }

    /// Builds the catalog from parsed quiz sources, in their order.
    pub fn load_stored_quizes(sources: Vec<ReadyQuiz>) -> (r: Result<QuizList, LoadError>)
        ensures
            match catalog_fault(sources@) {
                None => r matches Ok(list) && list.wf() && list.0@.len() == sources@.len()
                    && forall|i: int|
                    0 <= i < list.0@.len() ==> sources@[i].fresh(#[trigger] list.0@[i]),
                Some(e) => r == Err::<QuizList, LoadError>(e),
            },
    {
        let ghost srcs = sources@;
        let qs = match ReadyQuiz::load_included_quizes(sources) {
            Ok(qs) => qs,
            Err(e) => {
                return Err(e);
            },
        };
        let mut norms: Vec<String> = Vec::new();
        let mut j: usize = 0;
        while j < qs.len()
            invariant
                srcs == sources@,
                sources_fault(srcs) is None,
                qs@.len() == srcs.len(),
                forall|i: int| 0 <= i < qs@.len() ==> srcs[i].fresh(#[trigger] qs@[i]),
                j <= qs@.len(),
                norms@.len() == j,
                forall|k: int| 0 <= k < j ==> (#[trigger] norms@[k])@ == normalized(qs@[k].quiz_name@),
                forall|a: int, b: int|
                    0 <= a < b < j ==> normalized(#[trigger] qs@[a].quiz_name@) != normalized(
                        #[trigger] qs@[b].quiz_name@,
                    ),
                duplicate_from(srcs, 0) == duplicate_from(srcs, j as int),
            decreases qs@.len() - j,
        {
            let nj = normalize_input(qs[j].quiz_name.as_str());
            let mut i: usize = 0;
            while i < j
                invariant
                    srcs == sources@,
                sources_fault(srcs) is None,
                    duplicate_from(srcs, 0) == duplicate_from(srcs, j as int),
                    j < qs@.len(),
                    qs@.len() == srcs.len(),
                    forall|i: int| 0 <= i < qs@.len() ==> srcs[i].fresh(#[trigger] qs@[i]),
                    forall|k: int|
                        0 <= k < j ==> (#[trigger] norms@[k])@ == normalized(qs@[k].quiz_name@),
                    nj@ == normalized(qs@[j as int].quiz_name@),
                    norms@.len() == j,
                    i <= j,
                    forall|k: int| 0 <= k < i ==> (#[trigger] norms@[k])@ != nj@,
                decreases j - i,
            {
                if norms[i] == nj {
                    proof {
                        assert(srcs[i as int].quiz_name == qs@[i as int].quiz_name);
                        assert(repeats_earlier(srcs, j as int));
                        assert(duplicate_from(srcs, j as int) == Some(
                            LoadError::DuplicateQuizName(srcs[j as int].quiz_name),
                        ));
                    }
                    let name = qs[j].quiz_name.clone();
                    assert(name == srcs[j as int].quiz_name);
                    return Err(LoadError::DuplicateQuizName(name));
                }
                i = i + 1;
            }
            proof {
                assert forall|a: int, b: int| 0 <= a < b < j + 1 implies normalized(
                    #[trigger] qs@[a].quiz_name@,
                ) != normalized(#[trigger] qs@[b].quiz_name@) by {
                    if b == j {
                        assert(norms@[a]@ != nj@);
                    }
                }
                assert(!repeats_earlier(srcs, j as int)) by {
                    if repeats_earlier(srcs, j as int) {
                        let a = choose|a: int|
                            0 <= a < j && normalized(srcs[a].quiz_name@) == normalized(
                                srcs[j as int].quiz_name@,
                            );
                        assert(norms@[a]@ != nj@);
                    }
                }
            }
            norms.push(nj);
            j = j + 1;
            assert(forall|k: int| 0 <= k < j ==> (#[trigger] norms@[k])@ == normalized(qs@[k].quiz_name@));
        }
        Ok(QuizList(qs))
    }

    /// The quiz that `input_quiz_name` names, compared trimmed and lower-cased;
    /// where several match, the last of them.
    pub fn ready_quiz(self, input_quiz_name: String) -> (r: Option<Quiz>)
        ensures
            r is None <==> forall|i: int|
                0 <= i < self.0@.len() ==> !names_quiz(#[trigger] self.0@[i], input_quiz_name@),
            r matches Some(q) ==> exists|i: int|
                0 <= i < self.0@.len() && names_quiz(self.0@[i], input_quiz_name@) && q
                    == self.0@[i] && forall|j: int|
                    i < j < self.0@.len() ==> !names_quiz(#[trigger] self.0@[j], input_quiz_name@),
    {
        let key = normalize_input(input_quiz_name.as_str());
        let mut found: Option<usize> = None;
        let mut k: usize = 0;
        while k < self.0.len()
            invariant
                k <= self.0@.len(),
                key@ == normalized(input_quiz_name@),
                found is None ==> forall|i: int|
                    0 <= i < k ==> !names_quiz(#[trigger] self.0@[i], input_quiz_name@),
                found matches Some(f) ==> f < k && names_quiz(self.0@[f as int], input_quiz_name@)
                    && forall|j: int| f < j < k ==> !names_quiz(#[trigger] self.0@[j], input_quiz_name@),
            decreases self.0@.len() - k,
        {
            let name = normalize_input(self.0[k].quiz_name.as_str());
            if name == key {
                found = Some(k);
            }
            k = k + 1;
        }
        match found {
            None => None,
            Some(f) => {
                let mut all = self.0;
                Some(all.swap_remove(f))
            },
        }
    }

    /// The names of the quizzes, in catalog order.
    pub fn quiz_names(&self) -> (r: Vec<String>)
        ensures
            r@.len() == self.0@.len(),
            forall|i: int| 0 <= i < r@.len() ==> (#[trigger] r@[i])@ == self.0@[i].quiz_name@,
    {
        let mut r: Vec<String> = Vec::new();
        let mut i: usize = 0;
        while i < self.0.len()
            invariant
                i <= self.0@.len(),
                r@.len() == i,
                forall|k: int| 0 <= k < i ==> (#[trigger] r@[k])@ == self.0@[k].quiz_name@,
            decreases self.0@.len() - i,
        {
            r.push(self.0[i].quiz_name.clone());
            i = i + 1;
        }
        r
    }
}

} // verus!
