use rust_quiz_game::grade::letter_grade;
use rust_quiz_game::{Question, Quiz, QuizList};

fn create_test_question() -> Question {
    Question {
        question: "Test Question".to_string(),
        answers: vec![
            "Test Answer1".to_string(),
            "Test Answer2".to_string(),
            "Test Answer3".to_string(),
            "Test Answer4".to_string(),
        ],
        correct_answer: 1,
    }
}

fn create_test_quiz() -> Quiz {
    Quiz {
        quiz_name: "Test Quiz".to_string(),
        questions: vec![create_test_question()],
        user_answers: Vec::new(),
        score: 0,
    }
}

fn create_test_quizes() -> QuizList {
    QuizList(vec![create_test_quiz()])
}

/// What the result screen computes for a score.
fn show_result(score: u32, total_questions: u32) {
    let grade = letter_grade(score, total_questions).unwrap();
    let label = grade.label();
    assert!(label.starts_with("Grade: "));
    let message = grade.random_grade_message();
    assert!(!message.is_empty());
}

#[test]
fn test_display_quiz_names() {
    let test_quizes = create_test_quizes();
    let names = test_quizes.quiz_names();
    for name in &names {
        println!("{name}");
    }
    assert_eq!(names, vec!["Test Quiz".to_string()]);
    println!("Confirm the following was printed just above: Test Quiz")
}

#[test]
fn test_read_quiz() {
    let test_quizes = create_test_quizes();

    // Successfully gets a quiz with the input quiz name
    assert_eq!(
        "Test Quiz",
        test_quizes
            .ready_quiz("Test Quiz".to_string().trim().to_lowercase())
            .unwrap()
            .quiz_name,
    );
}

#[test]
#[should_panic]
fn test_read_quiz_1() {
    let test_quizes = create_test_quizes();

    // Fails to get a quiz with the input quiz name and returns none
    test_quizes.ready_quiz("Test Quiz1".to_string()).unwrap();
}

#[test]
fn test_get_quiz_length() {
    let test_quiz = create_test_quiz();

    assert_eq!(1, test_quiz.get_quiz_length());
}

/// Testing not panicing for operable range
#[test]
fn test_show_result() {
    for score in 0..100 {
        show_result(score, 100)
    }
    for total_questions in 1..100 {
        show_result(1, total_questions)
    }
}

/// Testing outside operable range
#[test]
#[should_panic]
fn test_show_result_1() {
    show_result(11, 10)
}
