use rust_quiz_game::quiz::{new_save_file_name, save_file_name, SAVE_FILE_SUFFIX};
use rust_quiz_game::{
    handle_user_action, normalize_input, read_args, GameState, LoadError, Question, Quiz, QuizList,
    ReadyQuiz,
};

fn question(prompt: &str, answers: &[&str], correct_answer: i8) -> Question {
    Question {
        question: prompt.to_string(),
        answers: answers.iter().map(|a| a.to_string()).collect(),
        correct_answer,
    }
}

fn source(name: &str, questions: Vec<Question>) -> ReadyQuiz {
    ReadyQuiz { quiz_name: name.to_string(), questions }
}

#[test]
fn sources_become_fresh_quizzes() {
    let list = QuizList::load_stored_quizes(vec![
        source("Rust Basics", vec![question("a?", &["x", "y"], 2)]),
        source("History", vec![question("b?", &["p", "q", "r"], 1)]),
    ])
    .unwrap();
    assert_eq!(list.quiz_names(), vec!["Rust Basics".to_string(), "History".to_string()]);
    assert!(list.0.iter().all(|q| q.user_answers.is_empty() && q.score == 0));
    let picked = list.ready_quiz("  rust BASICS \n".to_string()).unwrap();
    assert_eq!(picked.quiz_name, "Rust Basics");
    assert_eq!(picked.questions[0].answers, vec!["x".to_string(), "y".to_string()]);
}

#[test]
fn too_few_answers_is_refused() {
    let r = QuizList::load_stored_quizes(vec![
        source("Good", vec![question("a?", &["x", "y"], 1)]),
        source("Bad", vec![question("lonely?", &["only"], 1)]),
    ]);
    assert_eq!(r.unwrap_err(), LoadError::TooFewAnswers("lonely?".to_string()));
}

#[test]
fn correct_answer_out_of_range_is_refused() {
    for bad in [0i8, 3, -1] {
        let r = ReadyQuiz::load_included_quizes(vec![source("Q", vec![question("c?", &["x", "y"], bad)])]);
        assert_eq!(r.unwrap_err(), LoadError::CorrectAnswerOutOfRange("c?".to_string()));
    }
}

#[test]
fn duplicate_names_are_refused() {
    let r = QuizList::load_stored_quizes(vec![
        source(" Test Quiz ", vec![question("a?", &["x", "y"], 1)]),
        source("Other", vec![]),
        source("test QUIZ", vec![question("b?", &["x", "y"], 1)]),
    ]);
    assert_eq!(r.unwrap_err(), LoadError::DuplicateQuizName("test QUIZ".to_string()));
}

#[test]
fn faulty_question_is_reported_before_duplicate_name() {
    let r = QuizList::load_stored_quizes(vec![
        source("Same", vec![question("a?", &["x", "y"], 1)]),
        source("same", vec![question("b?", &["x"], 1)]),
    ]);
    assert_eq!(r.unwrap_err(), LoadError::TooFewAnswers("b?".to_string()));
}

#[test]
fn saved_quiz_is_validated() {
    let good = Quiz {
        quiz_name: "Q".to_string(),
        questions: vec![question("a?", &["x", "y"], 1)],
        user_answers: Vec::new(),
        score: 0,
    };
    assert_eq!(good.clone().validate(), Ok(good));
    let bad = Quiz {
        quiz_name: "Q".to_string(),
        questions: vec![question("a?", &["x", "y"], 1), question("z?", &["x", "y"], 9)],
        user_answers: Vec::new(),
        score: 0,
    };
    assert_eq!(bad.validate(), Err(LoadError::CorrectAnswerOutOfRange("z?".to_string())));
}

#[test]
fn lookup_misses_unknown_names() {
    let list = QuizList(vec![Quiz {
        quiz_name: "Test Quiz".to_string(),
        questions: vec![],
        user_answers: vec![],
        score: 0,
    }]);
    assert!(list.clone().ready_quiz("Test Quiz1".to_string()).is_none());
    assert!(list.clone().ready_quiz("Test".to_string()).is_none());
    assert!(list.ready_quiz("TEST QUIZ".to_string()).is_some());
}

#[test]
fn input_is_trimmed_and_lowercased() {
    assert_eq!(normalize_input("  Save AND Quit \n"), "save and quit");
    assert_eq!(normalize_input("\tSingle Examination"), "single examination");
    assert_eq!(normalize_input(""), "");
}

#[test]
fn arguments() {
    let prog = "quiz".to_string();
    assert_eq!(read_args(&[prog.clone()]), Ok(None));
    assert_eq!(read_args(&[prog.clone(), "save.toml".to_string()]), Ok(Some("save.toml".to_string())));
    assert_eq!(
        read_args(&[prog.clone(), "a".to_string(), "b".to_string()]),
        Err("To many arguments, not supported.".to_string())
    );
    assert!(read_args(&[]).is_err());
}

#[test]
fn menu_choices() {
    assert_eq!(handle_user_action("exit"), Some(GameState::QuitGame));
    assert_eq!(handle_user_action("start up screen"), Some(GameState::StartUpScreen));
    assert_eq!(handle_user_action("single examination"), Some(GameState::SingleExamination));
    assert_eq!(handle_user_action("game show"), Some(GameState::GameShow));
    assert_eq!(handle_user_action("Exit"), None);
    assert_eq!(handle_user_action("quit"), None);
}

#[test]
fn save_file_names() {
    assert_eq!(save_file_name("19-10-2026_10:30"), "19-10-2026_10:30_single_exam_save_file.toml");
    let now = new_save_file_name();
    assert!(now.ends_with(SAVE_FILE_SUFFIX));
    let stamp = &now[..now.len() - SAVE_FILE_SUFFIX.len()];
    assert_eq!(stamp.len(), 16);
    assert_eq!(&stamp[2..3], "-");
    assert_eq!(&stamp[10..11], "_");
    assert_eq!(&stamp[13..14], ":");
}
