//! The data model: questions, quizzes as they are read from a quiz source,
//! quizzes with their answer record, and the checks a loaded quiz must pass.
use crate::grade::{grade_of, letter_grade, percentage_of, Grade, GradeError};
use crate::text::{all_digits, is_digit};
use vstd::prelude::*;

verus! {

/// One multiple-choice question. `answers` in this order is the answer key;
/// `correct_answer` counts from 1.
#[derive(Clone, Debug, PartialEq)]
pub struct Question {
    pub question: String,
    pub answers: Vec<String>,
    pub correct_answer: i8,
}

/// What the user answered to one question, found again by its prompt.
#[derive(Clone, Debug, PartialEq)]
pub struct UserAnswer {
    pub question: String,
    pub answer: String,
    pub was_correct: bool,
}

/// A quiz with its answer record: fresh from the catalog (no answers, score
/// 0), paused (the answers given so far), or completed.
#[derive(Clone, Debug, PartialEq)]
pub struct Quiz {
    pub quiz_name: String,
    pub questions: Vec<Question>,
    pub user_answers: Vec<UserAnswer>,
    pub score: u32,
}

/// A quiz as a quiz source describes it.
#[derive(Clone, Debug, PartialEq)]
pub struct ReadyQuiz {
    pub quiz_name: String,
    pub questions: Vec<Question>,
}

/// Why a quiz source or a saved quiz was refused.
#[derive(Clone, Debug, PartialEq)]
pub enum LoadError {
    /// The question with this prompt offers fewer than two answers.
    TooFewAnswers(String),
    /// The question with this prompt marks an answer it does not have.
    CorrectAnswerOutOfRange(String),
    /// Two quizzes of a catalog have this name, once trimmed and lower-cased.
    DuplicateQuizName(String),
}

impl Question {
    /// At least two answers, and the correct one among them.
    pub open spec fn wf(&self) -> bool {
        &&& self.answers@.len() >= 2
        &&& 1 <= self.correct_answer
        &&& self.correct_answer as int <= self.answers@.len()
    }

    /// The text of the correct answer.
    pub open spec fn key_text(&self) -> Seq<char> {
        self.answers@[self.correct_answer as int - 1]@
    }

    /// What is wrong with the question, if anything.
    pub open spec fn fault(&self) -> Option<LoadError> {
        if self.answers@.len() < 2 {
            Some(LoadError::TooFewAnswers(self.question))
        } else if !(1 <= self.correct_answer && self.correct_answer as int <= self.answers@.len()) {
            Some(LoadError::CorrectAnswerOutOfRange(self.question))
        } else {
            None
        }
    }

    pub fn check(&self) -> (r: Result<(), LoadError>)
        ensures
            match self.fault() {
                None => r is Ok,
                Some(e) => r == Err::<(), LoadError>(e),
            },
    {
        if self.answers.len() < 2 {
            Err(LoadError::TooFewAnswers(self.question.clone()))
        } else if !(1 <= self.correct_answer && self.correct_answer as usize <= self.answers.len()) {
            Err(LoadError::CorrectAnswerOutOfRange(self.question.clone()))
        } else {
            Ok(())
        }
    }

    /// The text of the correct answer.
    pub fn correct_answer_text(&self) -> (r: &String)
        requires
            self.wf(),
        ensures
            r@ == self.key_text(),
    {
        &self.answers[(self.correct_answer - 1) as usize]
    }
}

/// The first fault among `qs`, in order.
pub open spec fn questions_fault(qs: Seq<Question>) -> Option<LoadError>
    decreases qs.len(),
{
    if qs.len() == 0 {
        None
    } else {
        match qs[0].fault() {
            Some(e) => Some(e),
            None => questions_fault(qs.drop_first()),
        }
    }
}

pub open spec fn all_wf(qs: Seq<Question>) -> bool {
    forall|i: int| 0 <= i < qs.len() ==> (#[trigger] qs[i]).wf()
}

/// A list of questions has no fault exactly when each of them is well formed.
pub proof fn lemma_questions_fault_none(qs: Seq<Question>)
    ensures
        questions_fault(qs) is None <==> all_wf(qs),
    decreases qs.len(),
{
    if qs.len() > 0 {
        lemma_questions_fault_none(qs.drop_first());
        assert forall|i: int| 0 <= i < qs.drop_first().len() implies qs.drop_first()[i]
            == qs[i + 1] by {}
        if all_wf(qs) {
            assert(qs[0].wf());
            assert(all_wf(qs.drop_first()));
        }
        if questions_fault(qs) is None {
            assert forall|i: int| 0 <= i < qs.len() implies (#[trigger] qs[i]).wf() by {
                if i > 0 {
                    assert(qs.drop_first()[i - 1] == qs[i]);
                }
            }
        }
    }
}

/// Checks the questions in order and reports the first fault.
pub fn check_questions(qs: &Vec<Question>) -> (r: Result<(), LoadError>)
    ensures
        match questions_fault(qs@) {
            None => r is Ok,
            Some(e) => r == Err::<(), LoadError>(e),
        },
{
    let mut i: usize = 0;
    assert(qs@.subrange(0, qs@.len() as int) =~= qs@);
    while i < qs.len()
        invariant
            i <= qs@.len(),
            questions_fault(qs@) == questions_fault(qs@.subrange(i as int, qs@.len() as int)),
        decreases qs@.len() - i,
    {
        let ghost rest = qs@.subrange(i as int, qs@.len() as int);
        assert(rest[0] == qs@[i as int]);
        assert(rest.drop_first() =~= qs@.subrange(i + 1, qs@.len() as int));
        match qs[i].check() {
            Err(e) => {
                return Err(e);
            },
            Ok(()) => {},
        }
        i = i + 1;
    }
    assert(qs@.subrange(i as int, qs@.len() as int).len() == 0);
    Ok(())
}

impl Quiz {
    /// Every question is well formed.
    pub open spec fn wf(&self) -> bool {
        all_wf(self.questions@)
    }

    /// Number of questions.
    pub fn get_quiz_length(&self) -> (r: u32)
        requires
            self.questions@.len() <= u32::MAX,
        ensures
            r == self.questions@.len(),
    {
        self.questions.len() as u32
    }

    /// Hands back a quiz whose questions are all well formed, or the first
    /// fault; the answer record is not checked against the questions.
    pub fn validate(self) -> (r: Result<Quiz, LoadError>)
        ensures
            match questions_fault(self.questions@) {
                None => r == Ok::<Quiz, LoadError>(self),
                Some(e) => r == Err::<Quiz, LoadError>(e),
            },
            r matches Ok(q) ==> q.wf(),
    {
        proof {
            lemma_questions_fault_none(self.questions@);
        }
        match check_questions(&self.questions) {
            Ok(()) => Ok(self),
            Err(e) => Err(e),
        }
    }

    /// `floor(score * 100 / number of questions)`.
    pub fn percentage(&self) -> (r: Result<u64, GradeError>)
        requires
            self.questions@.len() <= u32::MAX,
        ensures
            r == match percentage_of(self.score as int, self.questions@.len() as int) {
                Ok(p) => Ok::<u64, GradeError>(p as u64),
                Err(e) => Err(e),
            },
    {
        crate::grade::grade_percentage(self.score, self.get_quiz_length())
    }

    /// The grade that the score earns.
    pub fn grade(&self) -> (r: Result<Grade, GradeError>)
        requires
            self.questions@.len() <= u32::MAX,
        ensures
            r == grade_of(self.score as int, self.questions@.len() as int),
    {
        letter_grade(self.score, self.get_quiz_length())
    }
}

impl ReadyQuiz {
    /// The quiz that `self` describes, with no answers yet.
    pub open spec fn fresh(&self, q: Quiz) -> bool {
        &&& q.quiz_name == self.quiz_name
        &&& q.questions == self.questions
        &&& q.user_answers@.len() == 0
        &&& q.score == 0
    }

    pub fn ready_quiz_to_quiz(self) -> (q: Quiz)
        ensures
            self.fresh(q),
    {
        Quiz {
            quiz_name: self.quiz_name,
            questions: self.questions,
            user_answers: Vec::new(),
            score: 0,
        }
    }

    /// Turns parsed quiz sources into quizzes, refusing the first source that
    /// holds a faulty question.
    pub fn load_included_quizes(sources: Vec<ReadyQuiz>) -> (r: Result<Vec<Quiz>, LoadError>)
        ensures
            match sources_fault(sources@) {
                None => r matches Ok(qs) && qs@.len() == sources@.len() && forall|i: int|
                    0 <= i < qs@.len() ==> sources@[i].fresh(#[trigger] qs@[i]),
                Some(e) => r == Err::<Vec<Quiz>, LoadError>(e),
            },
    {
        let mut i: usize = 0;
        assert(sources@.subrange(0, sources@.len() as int) =~= sources@);
        while i < sources.len()
            invariant
                i <= sources@.len(),
                sources_fault(sources@) == sources_fault(
                    sources@.subrange(i as int, sources@.len() as int),
                ),
            decreases sources@.len() - i,
        {
            let ghost rest = sources@.subrange(i as int, sources@.len() as int);
            assert(rest[0] == sources@[i as int]);
            assert(rest.drop_first() =~= sources@.subrange(i + 1, sources@.len() as int));
            match check_questions(&sources[i].questions) {
                Err(e) => {
                    return Err(e);
                },
                Ok(()) => {},
            }
            i = i + 1;
        }
        assert(sources@.subrange(i as int, sources@.len() as int).len() == 0);
        let ghost all = sources@;
        let mut rest = sources;
        let mut out: Vec<Quiz> = Vec::new();
        while rest.len() > 0
            invariant
                out@.len() + rest@.len() == all.len(),
                rest@ == all.subrange(out@.len() as int, all.len() as int),
                forall|k: int| 0 <= k < out@.len() ==> all[k].fresh(#[trigger] out@[k]),
            decreases rest@.len(),
        {
            let s = rest.remove(0);
            out.push(s.ready_quiz_to_quiz());
            assert(rest@ =~= all.subrange(out@.len() as int, all.len() as int));
        }
        Ok(out)
    }
}

/// The first faulty question over a list of quiz sources, in order.
pub open spec fn sources_fault(srcs: Seq<ReadyQuiz>) -> Option<LoadError>
    decreases srcs.len(),
{
    if srcs.len() == 0 {
        None
    } else {
        match questions_fault(srcs[0].questions@) {
            Some(e) => Some(e),
            None => sources_fault(srcs.drop_first()),
        }
    }
}

/// The end of every save file's name.
pub const SAVE_FILE_SUFFIX: &'static str = "_single_exam_save_file.toml";

/// How chrono writes a year with `%Y`: four digits from 0 to 9999, otherwise
/// a sign followed by four digits or more.
pub open spec fn is_year_text(y: Seq<char>) -> bool {
    ||| y.len() == 4 && all_digits(y)
    ||| y.len() >= 5 && (y[0] == '+' || y[0] == '-') && all_digits(y.drop_first())
}

/// The shape of a time written `DD-MM-YYYY_HH:MM`: two digits, `-`, two
/// digits, `-`, the year, `_`, two digits, `:`, two digits.
pub open spec fn is_stamp(s: Seq<char>) -> bool {
    let n = s.len();
    &&& n >= 16
    &&& is_digit(s[0]) && is_digit(s[1]) && s[2] == '-'
    &&& is_digit(s[3]) && is_digit(s[4]) && s[5] == '-'
    &&& is_year_text(s.subrange(6, n - 6))
    &&& s[n - 6] == '_' && is_digit(s[n - 5]) && is_digit(s[n - 4])
    &&& s[n - 3] == ':' && is_digit(s[n - 2]) && is_digit(s[n - 1])
}

/// Relies on chrono's `Local::now` and `DateTime::format` with
/// `%d-%m-%Y_%H:%M`: day, month, hour and minute are each written as two
/// digits (zero padded), the year as `%Y` writes it, with the literal
/// separators between them.
#[verifier::external_body]
fn current_timestamp() -> (r: String)
    ensures
        is_stamp(r@),
{
    chrono::Local::now().format("%d-%m-%Y_%H:%M").to_string()
}

/// The name of a save file written at the time `stamp`.
pub fn save_file_name(stamp: &str) -> (r: String)
    ensures
        r@ == stamp@ + SAVE_FILE_SUFFIX@,
{
    let mut name = String::from_str(stamp);
    name.append(SAVE_FILE_SUFFIX);
    name
}

/// The name of a save file written now: the time, then the common suffix.
pub fn new_save_file_name() -> (r: String)
    ensures
        exists|stamp: Seq<char>| is_stamp(stamp) && r@ == stamp + SAVE_FILE_SUFFIX@,
{
    let stamp = current_timestamp();
    save_file_name(stamp.as_str())
}

} // verus!
