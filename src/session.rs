//! One run through a quiz: the questions in their stored order, each shown
//! with its answers shuffled, already answered ones skipped on a resume, and a
//! pause that hands back everything answered so far.
use crate::quiz::{lemma_questions_fault_none, questions_fault, Question, Quiz, UserAnswer};
use crate::text::{copy_texts, parse_selection, selection, str_eq};
use rand::seq::SliceRandom;
use vstd::prelude::*;

verus! {

/// The input that pauses a session so that it can be saved.
pub const SAVE_AND_QUIT: &'static str = "save and quit";

/// The first record of the question with this prompt.
pub open spec fn first_answer(rec: Seq<UserAnswer>, prompt: Seq<char>) -> Option<UserAnswer>
    decreases rec.len(),
{
    if rec.len() == 0 {
        None
    } else if rec[0].question@ == prompt {
        Some(rec[0])
    } else {
        first_answer(rec.drop_first(), prompt)
    }
}

/// Whether the record holds an answer to the question with this prompt.
pub open spec fn answered(rec: Seq<UserAnswer>, prompt: Seq<char>) -> bool {
    first_answer(rec, prompt) is Some
}

/// What an already answered question adds to the score when it is skipped.
pub open spec fn credit(rec: Seq<UserAnswer>, prompt: Seq<char>) -> int {
    match first_answer(rec, prompt) {
        Some(a) => if a.was_correct {
            1
        } else {
            0
        },
        None => 0,
    }
}

/// The first question, from `i` on, that the record does not answer; the
/// number of questions if there is none.
pub open spec fn next_pending(qs: Seq<Question>, rec: Seq<UserAnswer>, i: int) -> int
    decreases qs.len() - i,
{
    if i < 0 || i >= qs.len() {
        qs.len() as int
    } else if !answered(rec, qs[i].question@) {
        i
    } else {
        next_pending(qs, rec, i + 1)
    }
}

/// The credit of the recorded questions among `qs[i..j]`.
pub open spec fn credit_between(qs: Seq<Question>, rec: Seq<UserAnswer>, i: int, j: int) -> int
    decreases j - i,
{
    if j <= i {
        0
    } else {
        credit_between(qs, rec, i, j - 1) + credit(rec, qs[j - 1].question@)
    }
}

/// How many of the answers are correct.
pub open spec fn correct_count(answers: Seq<UserAnswer>) -> int
    decreases answers.len(),
{
    if answers.len() == 0 {
        0
    } else {
        correct_count(answers.drop_last()) + if answers.last().was_correct {
            1int
        } else {
            0
        }
    }
}

/// `shown` holds the same answers as `answers`, in some order.
pub open spec fn is_shuffle_of(shown: Seq<String>, answers: Seq<String>) -> bool {
    shown.to_multiset() == answers.to_multiset()
}

/// What a session is at one moment.
pub ghost struct SessionView {
    /// The quiz in its stored order, with the record it was resumed from.
    pub quiz: Quiz,
    /// The question being shown, or the next one to consider.
    pub position: int,
    pub score: int,
    /// The answers given in this session, in order.
    pub new_answers: Seq<UserAnswer>,
    /// The answers on screen, shuffled, while a question is shown.
    pub shown: Option<Seq<String>>,
}

/// A quiz being answered.
pub struct Session {
    quiz: Quiz,
    position: usize,
    score: u32,
    new_answers: Vec<UserAnswer>,
    shown: Option<Vec<String>>,
}

/// What became of one line of input typed at a question.
#[derive(Clone, Debug, PartialEq)]
pub enum Submission {
    /// The user asked to pause; the session is as it was.
    SaveAndQuit,
    /// Neither an answer number on screen nor the pause request; the session is
    /// as it was, and the question is asked again.
    Rejected,
    /// The answer with this text was picked; `correct` says whether it is the
    /// answer key's.
    Answered { answer: String, correct: bool },
}

impl View for Session {
    type V = SessionView;

    closed spec fn view(&self) -> SessionView {
        SessionView {
            quiz: self.quiz,
            position: self.position as int,
            score: self.score as int,
            new_answers: self.new_answers@,
            shown: match self.shown {
                Some(v) => Some(v@),
                None => None,
            },
        }
    }
}

/// Relies on rand's `SliceRandom::shuffle` for slices, which only swaps
/// elements: the result holds the same elements.
#[verifier::external_body]
fn shuffle(v: &mut Vec<String>)
    ensures
        final(v)@.to_multiset() == old(v)@.to_multiset(),
{
    v.as_mut_slice().shuffle(&mut rand::thread_rng());
}

/// Where the record first answers the question with this prompt.
fn find_answer(rec: &Vec<UserAnswer>, prompt: &String) -> (r: Option<usize>)
    ensures
        match r {
            Some(k) => k < rec@.len() && first_answer(rec@, prompt@) == Some(rec@[k as int]),
            None => first_answer(rec@, prompt@) is None,
        },
{
    let mut i: usize = 0;
    assert(rec@.subrange(0, rec@.len() as int) =~= rec@);
    while i < rec.len()
        invariant
            i <= rec@.len(),
            first_answer(rec@, prompt@) == first_answer(
                rec@.subrange(i as int, rec@.len() as int),
                prompt@,
            ),
        decreases rec@.len() - i,
    {
        let ghost rest = rec@.subrange(i as int, rec@.len() as int);
        assert(rest[0] == rec@[i as int]);
        assert(rest.drop_first() =~= rec@.subrange(i + 1, rec@.len() as int));
        if rec[i].question == *prompt {
            return Some(i);
        }
        i = i + 1;
    }
    assert(rec@.subrange(i as int, rec@.len() as int).len() == 0);
    None
}

impl Session {
    /// The invariant of a session.
    pub open spec fn wf(&self) -> bool {
        let v = self@;
        let qs = v.quiz.questions@;
        &&& v.quiz.wf()
        &&& qs.len() <= u32::MAX
        &&& 0 <= v.score <= v.position <= qs.len()
        &&& v.score == credit_between(qs, v.quiz.user_answers@, 0, v.position) + correct_count(
            v.new_answers,
        )
        &&& forall|i: int|
            0 <= i < v.position ==> answered(
                v.quiz.user_answers@ + v.new_answers,
                (#[trigger] qs[i]).question@,
            )
        &&& v.shown matches Some(s) ==> {
            &&& v.position < qs.len()
            &&& !answered(v.quiz.user_answers@, qs[v.position].question@)
            &&& is_shuffle_of(s, qs[v.position].answers@)
        }
    }

    /// Starts a session on `quiz`; its answer record, possibly empty, lists
    /// the questions answered before and is kept.
    pub fn new(quiz: Quiz) -> (s: Session)
        requires
            quiz.wf(),
            quiz.questions@.len() <= u32::MAX,
        ensures
            s.wf(),
            s@.quiz == quiz,
            s@.position == 0,
            s@.score == 0,
            s@.new_answers.len() == 0,
            s@.shown is None,
    {
        let s = Session { quiz, position: 0, score: 0, new_answers: Vec::new(), shown: None };
        assert(correct_count(s.new_answers@) == 0);
        s
    }

    /// Moves to the next question that the record does not answer, adding the
    /// credit of each answered one passed over, and shows it with its answers
    /// shuffled; `None` when no question is left.
    pub fn next_question(&mut self) -> (r: Option<Vec<String>>)
        requires
            old(self).wf(),
            old(self)@.shown is None,
        ensures
            final(self).wf(),
            ({
                let qs = old(self)@.quiz.questions@;
                let rec = old(self)@.quiz.user_answers@;
                let j = next_pending(qs, rec, old(self)@.position);
                &&& final(self)@.quiz == old(self)@.quiz
                &&& final(self)@.new_answers == old(self)@.new_answers
                &&& final(self)@.position == j
                &&& final(self)@.score == old(self)@.score + credit_between(
                    qs,
                    rec,
                    old(self)@.position,
                    j,
                )
                &&& j < qs.len() ==> (r matches Some(opts) && final(self)@.shown == Some(opts@)
                    && opts@.len() == qs[j].answers@.len() && is_shuffle_of(opts@, qs[j].answers@))
                &&& j >= qs.len() ==> r is None && final(self)@.shown is None
            }),
    {
        let ghost qs = self.quiz.questions@;
        let ghost rec = self.quiz.user_answers@;
        let ghost start = self.position as int;
        let ghost start_score = self.score as int;
        while self.position < self.quiz.questions.len()
            invariant
                self.wf(),
                self.shown is None,
                start == old(self)@.position,
                start_score == old(self)@.score,
                qs == old(self)@.quiz.questions@,
                rec == old(self)@.quiz.user_answers@,
                self.quiz.questions@ == qs,
                self.quiz.user_answers@ == rec,
                self@.quiz == old(self)@.quiz,
                self@.new_answers == old(self)@.new_answers,
                start <= self.position <= qs.len(),
                next_pending(qs, rec, start) == next_pending(qs, rec, self.position as int),
                self.score == start_score + credit_between(qs, rec, start, self.position as int),
            decreases qs.len() - self.position,
        {
            let p = self.position;
            match find_answer(&self.quiz.user_answers, &self.quiz.questions[p].question) {
                None => {
                    let mut opts = copy_texts(&self.quiz.questions[p].answers);
                    shuffle(&mut opts);
                    proof {
                        vstd::seq_lib::to_multiset_len(opts@);
                        vstd::seq_lib::to_multiset_len(qs[p as int].answers@);
                    }
                    let shown = copy_texts(&opts);
                    self.shown = Some(shown);
                    return Some(opts);
                },
                Some(k) => {
                    let add: u32 = if self.quiz.user_answers[k].was_correct {
                        1
                    } else {
                        0
                    };
                    proof {
                        lemma_answered_extend(rec, self.new_answers@, qs[p as int].question@);
                    }
                    self.score = self.score + add;
                    self.position = p + 1;
                },
            }
        }
        None
    }

    /// The question being shown.
    pub fn current_question(&self) -> (r: &Question)
        requires
            self.wf(),
            self@.shown is Some,
        ensures
            *r == self@.quiz.questions@[self@.position],
    {
        &self.quiz.questions[self.position]
    }

    /// Takes one line of input typed at the question being shown: the pause
    /// request, an answer number counted from 1 among the answers on screen,
    /// or anything else, which changes nothing.
    pub fn submit(&mut self, input: &str) -> (r: Submission)
        requires
            old(self).wf(),
            old(self)@.shown is Some,
        ensures
            final(self).wf(),
            ({
                let v = old(self)@;
                let opts = v.shown->Some_0;
                let q = v.quiz.questions@[v.position];
                if input@ == SAVE_AND_QUIT@ {
                    r == Submission::SaveAndQuit && final(self)@ == v
                } else {
                    match selection(input@, opts.len() as int) {
                        None => r == Submission::Rejected && final(self)@ == v,
                        Some(k) => {
                            let picked = opts[k - 1];
                            let correct = picked@ == q.key_text();
                            &&& r == (Submission::Answered { answer: picked, correct })
                            &&& final(self)@.quiz == v.quiz
                            &&& final(self)@.position == v.position + 1
                            &&& final(self)@.shown is None
                            &&& final(self)@.new_answers == v.new_answers.push(
                                UserAnswer { question: q.question, answer: picked, was_correct: correct },
                            )
                            &&& final(self)@.score == v.score + if correct {
                                1int
                            } else {
                                0
                            }
                        },
                    }
                }
            }),
    {
        if str_eq(input, SAVE_AND_QUIT) {
            return Submission::SaveAndQuit;
        }
        let n = match &self.shown {
            Some(opts) => opts.len(),
            None => 0,
        };
        let k = match parse_selection(input, n) {
            None => {
                return Submission::Rejected;
            },
            Some(k) => k,
        };
        let picked = match &self.shown {
            Some(opts) => opts[k - 1].clone(),
            None => String::new(),
        };
        let p = self.position;
        let correct = picked == *self.quiz.questions[p].correct_answer_text();
        let ghost old_new = self.new_answers@;
        self.new_answers.push(
            UserAnswer {
                question: self.quiz.questions[p].question.clone(),
                answer: picked.clone(),
                was_correct: correct,
            },
        );
        assert(self.new_answers@.drop_last() =~= old_new);
        proof {
            let rec = self.quiz.user_answers@;
            let qs = self.quiz.questions@;
            let a = self.new_answers@.last();
            assert(rec + self.new_answers@ =~= (rec + old_new).push(a));
            lemma_answered_last(rec + old_new, a);
            assert forall|i: int| 0 <= i < p implies answered(
                rec + self.new_answers@,
                (#[trigger] qs[i]).question@,
            ) by {
                lemma_answered_extend(rec + old_new, seq![a], qs[i].question@);
                assert((rec + old_new) + seq![a] =~= (rec + old_new).push(a));
            }
        }
        if correct {
            self.score = self.score + 1;
        }
        self.position = p + 1;
        self.shown = None;
        Submission::Answered { answer: picked, correct }
    }

    /// Ends the session: the quiz in its stored order, with the earlier record
    /// followed by this session's answers, and the score so far. For a paused
    /// session this is what is saved; the question on screen, if any, is left
    /// unanswered.
    pub fn into_quiz(self) -> (q: Quiz)
        requires
            self.wf(),
        ensures
            q.quiz_name == self@.quiz.quiz_name,
            q.questions == self@.quiz.questions,
            q.user_answers@ == self@.quiz.user_answers@ + self@.new_answers,
            q.score == self@.score,
    {
        let Session { quiz, position: _, score, new_answers, shown: _ } = self;
        let Quiz { quiz_name, questions, user_answers, score: _ } = quiz;
        let mut all = user_answers;
        let mut added = new_answers;
        all.append(&mut added);
        Quiz { quiz_name, questions, user_answers: all, score }
    }
}

/// No two of the answers have the same text.
pub open spec fn distinct_texts(answers: Seq<String>) -> bool {
    forall|i: int, j: int|
        0 <= i < answers.len() && 0 <= j < answers.len() && i != j ==> (#[trigger] answers[i])@
            != (#[trigger] answers[j])@
}

/// Some answer among `answers` has the text `t`.
pub open spec fn has_text(answers: Seq<String>, t: Seq<char>) -> bool {
    exists|i: int| 0 <= i < answers.len() && (#[trigger] answers[i])@ == t
}

/// Shuffling changes only the order of the answers: as many are shown, a text
/// is on screen exactly when it is among the answers, so the correct answer is
/// always on screen; and when the answers have distinct texts, exactly one
/// answer on screen has the correct text.
pub proof fn lemma_shuffle_keeps_answer_key(q: Question, shown: Seq<String>)
    requires
        q.wf(),
        is_shuffle_of(shown, q.answers@),
    ensures
        shown.len() == q.answers@.len(),
        forall|t: Seq<char>| has_text(shown, t) <==> has_text(q.answers@, t),
        has_text(shown, q.key_text()),
        distinct_texts(q.answers@) ==> forall|i: int, j: int|
            0 <= i < shown.len() && 0 <= j < shown.len() && (#[trigger] shown[i])@ == q.key_text()
                && (#[trigger] shown[j])@ == q.key_text() ==> i == j,
{
    let answers = q.answers@;
    broadcast use vstd::seq_lib::to_multiset_contains;

    vstd::seq_lib::to_multiset_len(shown);
    vstd::seq_lib::to_multiset_len(answers);
    assert forall|t: Seq<char>| has_text(shown, t) implies has_text(answers, t) by {
        let i = choose|i: int| 0 <= i < shown.len() && (#[trigger] shown[i])@ == t;
        assert(shown.contains(shown[i]));
        assert(shown.to_multiset().count(shown[i]) > 0);
        assert(answers.contains(shown[i]));
    }
    assert forall|t: Seq<char>| has_text(answers, t) implies has_text(shown, t) by {
        let i = choose|i: int| 0 <= i < answers.len() && (#[trigger] answers[i])@ == t;
        assert(answers.contains(answers[i]));
        assert(answers.to_multiset().count(answers[i]) > 0);
        assert(shown.contains(answers[i]));
    }
    let k = q.correct_answer as int - 1;
    assert(answers[k]@ == q.key_text());
    assert(has_text(answers, q.key_text()));
    if distinct_texts(answers) {
        assert(answers.no_duplicates());
        answers.lemma_multiset_has_no_duplicates();
        shown.lemma_multiset_has_no_duplicates_conv();
        assert forall|i: int, j: int|
            0 <= i < shown.len() && 0 <= j < shown.len() && (#[trigger] shown[i])@ == q.key_text()
                && (#[trigger] shown[j])@ == q.key_text() implies i == j by {
            assert(shown.contains(shown[i]));
            assert(shown.to_multiset().count(shown[i]) > 0);
            assert(answers.contains(shown[i]));
            let a = choose|a: int| 0 <= a < answers.len() && answers[a] == shown[i];
            assert(shown.contains(shown[j]));
            assert(shown.to_multiset().count(shown[j]) > 0);
            assert(answers.contains(shown[j]));
            let b = choose|b: int| 0 <= b < answers.len() && answers[b] == shown[j];
            assert(answers[a]@ == answers[b]@);
            assert(a == b);
        }
    }
}

/// The record answers a prompt exactly when some entry carries it.
pub proof fn lemma_answered_iff_entry(rec: Seq<UserAnswer>, prompt: Seq<char>)
    ensures
        answered(rec, prompt) <==> exists|k: int|
            0 <= k < rec.len() && (#[trigger] rec[k]).question@ == prompt,
    decreases rec.len(),
{
    if rec.len() > 0 {
        lemma_answered_iff_entry(rec.drop_first(), prompt);
        if rec[0].question@ != prompt {
            if exists|k: int| 0 <= k < rec.len() && (#[trigger] rec[k]).question@ == prompt {
                let k = choose|k: int| 0 <= k < rec.len() && (#[trigger] rec[k]).question@ == prompt;
                assert(rec.drop_first()[k - 1] == rec[k]);
            }
            if answered(rec.drop_first(), prompt) {
                let k = choose|k: int|
                    0 <= k < rec.drop_first().len() && (#[trigger] rec.drop_first()[k]).question@
                        == prompt;
                assert(rec[k + 1] == rec.drop_first()[k]);
            }
        }
    }
}

/// An answered prompt stays answered when entries are added after it.
proof fn lemma_answered_extend(rec: Seq<UserAnswer>, more: Seq<UserAnswer>, prompt: Seq<char>)
    requires
        answered(rec, prompt),
    ensures
        answered(rec + more, prompt),
{
    lemma_answered_iff_entry(rec, prompt);
    lemma_answered_iff_entry(rec + more, prompt);
    let k = choose|k: int| 0 <= k < rec.len() && (#[trigger] rec[k]).question@ == prompt;
    assert((rec + more)[k] == rec[k]);
}

/// The prompt of the last entry is answered.
proof fn lemma_answered_last(rec: Seq<UserAnswer>, a: UserAnswer)
    ensures
        answered(rec.push(a), a.question@),
{
    lemma_answered_iff_entry(rec.push(a), a.question@);
    assert(rec.push(a)[rec.len() as int] == a);
}

/// The first entry that carries a prompt is the one found.
proof fn lemma_first_answer_at(rec: Seq<UserAnswer>, prompt: Seq<char>, i: int)
    requires
        0 <= i < rec.len(),
        rec[i].question@ == prompt,
        forall|j: int| 0 <= j < i ==> (#[trigger] rec[j]).question@ != prompt,
    ensures
        first_answer(rec, prompt) == Some(rec[i]),
    decreases i,
{
    if i > 0 {
        assert(rec[0].question@ != prompt);
        assert forall|j: int| 0 <= j < i - 1 implies (#[trigger] rec.drop_first()[j]).question@
            != prompt by {
            assert(rec.drop_first()[j] == rec[j + 1]);
        }
        lemma_first_answer_at(rec.drop_first(), prompt, i - 1);
    }
}

/// Passing over answered questions only: from `i`, the next pending question
/// is at or beyond `k` when every question in `qs[i..k]` is answered.
proof fn lemma_next_pending_passes(qs: Seq<Question>, rec: Seq<UserAnswer>, i: int, k: int)
    requires
        0 <= i <= k <= qs.len(),
        forall|j: int| i <= j < k ==> answered(rec, (#[trigger] qs[j]).question@),
    ensures
        next_pending(qs, rec, i) >= k,
        k < qs.len() && !answered(rec, qs[k].question@) ==> next_pending(qs, rec, i) == k,
    decreases k - i,
{
    if i < k {
        assert(answered(rec, qs[i].question@));
        lemma_next_pending_passes(qs, rec, i + 1, k);
    } else {
        lemma_next_pending_at_least(qs, rec, i);
    }
}

proof fn lemma_next_pending_at_least(qs: Seq<Question>, rec: Seq<UserAnswer>, i: int)
    requires
        0 <= i <= qs.len(),
    ensures
        i <= next_pending(qs, rec, i) <= qs.len(),
    decreases qs.len() - i,
{
    if i < qs.len() {
        lemma_next_pending_at_least(qs, rec, i + 1);
    }
}

/// No two questions share a prompt.
pub open spec fn distinct_prompts(qs: Seq<Question>) -> bool {
    forall|i: int, j: int|
        0 <= i < qs.len() && 0 <= j < qs.len() && i != j ==> (#[trigger] qs[i]).question@
            != (#[trigger] qs[j]).question@
}

/// Resuming from a record that answers the first `rec.len()` questions, one
/// entry each and in their order (prompts being distinct), and no others: the
/// session skips exactly those questions and then presents the remaining ones
/// one after another in their stored order; the skipped ones add the number of
/// correct entries of the record, and the final score of a session that went
/// through every question is that number plus the correct answers it took.
pub proof fn lemma_resume_after_prefix(qs: Seq<Question>, rec: Seq<UserAnswer>)
    requires
        rec.len() < qs.len(),
        distinct_prompts(qs),
        forall|i: int| 0 <= i < rec.len() ==> (#[trigger] rec[i]).question@ == qs[i].question@,
    ensures
        next_pending(qs, rec, 0) == rec.len(),
        forall|i: int| rec.len() <= i < qs.len() ==> next_pending(qs, rec, i) == i,
        credit_between(qs, rec, 0, qs.len() as int) == correct_count(rec),
        forall|s: Session|
            #![trigger s.wf()]
            s.wf() && s@.quiz.questions@ == qs && s@.quiz.user_answers@ == rec && s@.position
                == qs.len() ==> s@.score == correct_count(rec) + correct_count(s@.new_answers),
{
    let k = rec.len() as int;
    assert forall|i: int| 0 <= i < k implies answered(rec, (#[trigger] qs[i]).question@)
        && first_answer(rec, qs[i].question@) == Some(rec[i]) by {
        assert forall|j: int| 0 <= j < i implies (#[trigger] rec[j]).question@
            != qs[i].question@ by {
            assert(rec[j].question@ == qs[j].question@);
        }
        lemma_first_answer_at(rec, qs[i].question@, i);
    }
    assert forall|i: int| k <= i < qs.len() implies !answered(rec, (#[trigger] qs[i]).question@) by {
        lemma_answered_iff_entry(rec, qs[i].question@);
        if answered(rec, qs[i].question@) {
            let j = choose|j: int| 0 <= j < rec.len() && (#[trigger] rec[j]).question@
                == qs[i].question@;
            assert(rec[j].question@ == qs[j].question@);
        }
    }
    lemma_next_pending_passes(qs, rec, 0, k);
    lemma_credit_of_prefix(qs, rec, k);
    assert(rec.subrange(0, k) =~= rec);
    lemma_credit_of_rest(qs, rec, k, qs.len() as int);
}

proof fn lemma_credit_of_prefix(qs: Seq<Question>, rec: Seq<UserAnswer>, m: int)
    requires
        0 <= m <= rec.len() < qs.len(),
        forall|i: int|
            0 <= i < rec.len() ==> first_answer(rec, (#[trigger] qs[i]).question@) == Some(rec[i]),
    ensures
        credit_between(qs, rec, 0, m) == correct_count(rec.subrange(0, m)),
    decreases m,
{
    if m > 0 {
        lemma_credit_of_prefix(qs, rec, m - 1);
        assert(rec.subrange(0, m).drop_last() =~= rec.subrange(0, m - 1));
        assert(first_answer(rec, qs[m - 1].question@) == Some(rec[m - 1]));
    }
}

proof fn lemma_credit_of_rest(qs: Seq<Question>, rec: Seq<UserAnswer>, k: int, m: int)
    requires
        0 <= k <= m <= qs.len(),
        forall|i: int| k <= i < qs.len() ==> !answered(rec, (#[trigger] qs[i]).question@),
    ensures
        credit_between(qs, rec, 0, m) == credit_between(qs, rec, 0, k),
    decreases m - k,
{
    if m > k {
        lemma_credit_of_rest(qs, rec, k, m - 1);
        assert(!answered(rec, qs[m - 1].question@));
    }
}

/// Pausing loses nothing: the questions that a session hands back pass the
/// checks made when a saved quiz is loaded, and in the record it hands back
/// (the earlier record followed by its own answers) every question that the
/// session has passed is answered, so resuming from it presents none of them
/// again.
pub proof fn lemma_pause_keeps_progress(s: Session)
    requires
        s.wf(),
    ensures
        forall|i: int|
            0 <= i < s@.position ==> answered(
                s@.quiz.user_answers@ + s@.new_answers,
                (#[trigger] s@.quiz.questions@[i]).question@,
            ),
        next_pending(s@.quiz.questions@, s@.quiz.user_answers@ + s@.new_answers, 0)
            >= s@.position,
        questions_fault(s@.quiz.questions@) is None,
{
    lemma_questions_fault_none(s@.quiz.questions@);
    lemma_next_pending_passes(
        s@.quiz.questions@,
        s@.quiz.user_answers@ + s@.new_answers,
        0,
        s@.position,
    );
}

impl Quiz {
    /// Whether the answer record already holds an answer to `current_question`,
    /// found by its prompt.
    pub fn check_answered_question(&self, current_question: &Question) -> (r: bool)
        ensures
            r == answered(self.user_answers@, current_question.question@),
    {
        find_answer(&self.user_answers, &current_question.question).is_some()
    }

    /// The text of the correct answer of the first question with this prompt.
    pub fn correct_answer_for(&self, prompt: &String) -> (r: Option<&String>)
        requires
            self.wf(),
        ensures
            r is None <==> forall|i: int|
                0 <= i < self.questions@.len() ==> (#[trigger] self.questions@[i]).question@
                    != prompt@,
            r matches Some(t) ==> exists|i: int|
                0 <= i < self.questions@.len() && self.questions@[i].question@ == prompt@
                    && t@ == self.questions@[i].key_text() && forall|j: int|
                    0 <= j < i ==> (#[trigger] self.questions@[j]).question@ != prompt@,
    {
        let mut i: usize = 0;
        while i < self.questions.len()
            invariant
                self.wf(),
                i <= self.questions@.len(),
                forall|j: int|
                    0 <= j < i ==> (#[trigger] self.questions@[j]).question@ != prompt@,
            decreases self.questions@.len() - i,
        {
            if self.questions[i].question == *prompt {
                assert(self.questions@[i as int].wf());
                return Some(self.questions[i].correct_answer_text());
            }
            i = i + 1;
        }
        None
    }
}

} // verus!
