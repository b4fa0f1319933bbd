use rust_quiz_game::{Question, Quiz, Session, Submission, UserAnswer, SAVE_AND_QUIT};

fn question(prompt: &str, answers: &[&str], correct_answer: i8) -> Question {
    Question {
        question: prompt.to_string(),
        answers: answers.iter().map(|a| a.to_string()).collect(),
        correct_answer,
    }
}

fn quiz(name: &str, questions: Vec<Question>) -> Quiz {
    Quiz { quiz_name: name.to_string(), questions, user_answers: Vec::new(), score: 0 }
}

fn three_question_quiz() -> Quiz {
    quiz(
        "Arithmetic",
        vec![
            question("1+1?", &["1", "2", "3"], 2),
            question("2+2?", &["3", "4", "5", "6"], 2),
            question("3+3?", &["6", "7"], 1),
        ],
    )
}

/// The number, counted from 1, under which `text` is shown.
fn number_of(opts: &[String], text: &str) -> String {
    (opts.iter().position(|o| o == text).unwrap() + 1).to_string()
}

/// A number under which some answer other than `text` is shown.
fn number_other_than(opts: &[String], text: &str) -> String {
    (opts.iter().position(|o| o != text).unwrap() + 1).to_string()
}

#[test]
fn single_question_answered_right_gets_a_plus() {
    let mut s = Session::new(quiz("Test Quiz", vec![question("2+2?", &["3", "4", "5", "6"], 2)]));
    let opts = s.next_question().unwrap();
    assert_eq!(s.current_question().question, "2+2?");
    let r = s.submit(&number_of(&opts, "4"));
    assert_eq!(r, Submission::Answered { answer: "4".to_string(), correct: true });
    assert!(s.next_question().is_none());
    let done = s.into_quiz();
    assert_eq!(done.score, 1);
    assert_eq!(done.get_quiz_length(), 1);
    assert_eq!(done.percentage(), Ok(100));
    assert_eq!(done.grade().unwrap().label(), "Grade: A+");
}

#[test]
fn single_question_answered_wrong_gets_f_minus() {
    let mut s = Session::new(quiz("Test Quiz", vec![question("2+2?", &["3", "4", "5", "6"], 2)]));
    let opts = s.next_question().unwrap();
    let pick = number_other_than(&opts, "4");
    match s.submit(&pick) {
        Submission::Answered { answer, correct } => {
            assert_ne!(answer, "4");
            assert!(!correct);
        }
        other => panic!("unexpected {other:?}"),
    }
    assert!(s.next_question().is_none());
    let done = s.into_quiz();
    assert_eq!(done.score, 0);
    assert_eq!(done.grade().unwrap().label(), "Grade: F-");
    assert!(!done.user_answers[0].was_correct);
}

#[test]
fn save_and_quit_on_second_question_keeps_only_the_first_answer() {
    let mut s = Session::new(three_question_quiz());
    let opts = s.next_question().unwrap();
    assert_eq!(s.current_question().question, "1+1?");
    let r = s.submit(&number_of(&opts, "2"));
    assert_eq!(r, Submission::Answered { answer: "2".to_string(), correct: true });
    let _ = s.next_question().unwrap();
    assert_eq!(s.current_question().question, "2+2?");
    assert_eq!(s.submit(SAVE_AND_QUIT), Submission::SaveAndQuit);
    let snapshot = s.into_quiz();
    assert_eq!(snapshot.user_answers.len(), 1);
    assert_eq!(snapshot.user_answers[0].question, "1+1?");
    assert!(snapshot.user_answers[0].was_correct);
    assert!(!snapshot.user_answers.iter().any(|a| a.question == "2+2?" || a.question == "3+3?"));
    // the questions are saved in their stored order, answers unshuffled
    assert_eq!(snapshot.questions, three_question_quiz().questions);
}

#[test]
fn resumed_session_skips_answered_prefix_and_counts_it() {
    let mut saved = three_question_quiz();
    saved.user_answers = vec![UserAnswer {
        question: "1+1?".to_string(),
        answer: "2".to_string(),
        was_correct: true,
    }];
    assert!(saved.check_answered_question(&saved.questions[0].clone()));
    assert!(!saved.check_answered_question(&saved.questions[1].clone()));
    let mut s = Session::new(saved);
    let opts = s.next_question().unwrap();
    assert_eq!(s.current_question().question, "2+2?");
    let _ = s.submit(&number_other_than(&opts, "4"));
    let opts = s.next_question().unwrap();
    assert_eq!(s.current_question().question, "3+3?");
    let _ = s.submit(&number_of(&opts, "6"));
    assert!(s.next_question().is_none());
    let done = s.into_quiz();
    // one correct from the record, one correct of the two new answers
    assert_eq!(done.score, 2);
    assert_eq!(done.user_answers.len(), 3);
    assert_eq!(done.percentage(), Ok(66));
}

#[test]
fn record_entry_for_missing_prompt_is_ignored() {
    let mut saved = quiz("Q", vec![question("a?", &["x", "y"], 1)]);
    saved.user_answers = vec![UserAnswer {
        question: "not in the quiz".to_string(),
        answer: "x".to_string(),
        was_correct: true,
    }];
    let mut s = Session::new(saved);
    let opts = s.next_question().unwrap();
    let _ = s.submit(&number_of(&opts, "y"));
    assert!(s.next_question().is_none());
    assert_eq!(s.into_quiz().score, 0);
}

#[test]
fn bad_input_is_rejected_and_changes_nothing() {
    let mut s = Session::new(quiz("Q", vec![question("2+2?", &["3", "4", "5", "6"], 2)]));
    let opts = s.next_question().unwrap();
    assert_eq!(opts.len(), 4);
    for bad in ["0", "5", "abc", "", "-1", "1.0", "2 ", "save", "99999999999999999999999999"] {
        assert_eq!(s.submit(bad), Submission::Rejected, "input {bad:?}");
        assert_eq!(s.current_question().question, "2+2?");
    }
    match s.submit("+4") {
        Submission::Answered { answer, .. } => assert_eq!(answer, opts[3]),
        other => panic!("unexpected {other:?}"),
    }
    let done = s.into_quiz();
    assert_eq!(done.user_answers.len(), 1);
}

#[test]
fn shuffle_keeps_the_answer_texts() {
    let q = question("colour?", &["red", "green", "blue", "black", "white"], 3);
    for _ in 0..20 {
        let mut s = Session::new(quiz("Q", vec![q.clone()]));
        let mut opts = s.next_question().unwrap();
        assert_eq!(opts.iter().filter(|o| *o == "blue").count(), 1);
        opts.sort();
        let mut expected = q.answers.clone();
        expected.sort();
        assert_eq!(opts, expected);
    }
}

#[test]
fn correct_answer_is_found_by_prompt() {
    let q = three_question_quiz();
    assert_eq!(q.correct_answer_for(&"2+2?".to_string()), Some(&"4".to_string()));
    assert_eq!(q.correct_answer_for(&"5+5?".to_string()), None);
    assert_eq!(q.questions[2].correct_answer_text(), "6");
}

#[test]
fn quiz_score_above_length_has_no_grade() {
    let mut q = quiz("Q", vec![question("a?", &["x", "y"], 1)]);
    q.score = 2;
    assert_eq!(q.grade(), Err(rust_quiz_game::GradeError::ScoreAboveTotal));
    assert_eq!(q.percentage(), Err(rust_quiz_game::GradeError::ScoreAboveTotal));
    let empty = quiz("E", vec![]);
    assert_eq!(empty.grade(), Err(rust_quiz_game::GradeError::ZeroTotal));
}
