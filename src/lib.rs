//! A multiple-choice quiz engine: quizzes and questions, a catalog to pick
//! them from, a session that asks the questions with shuffled answers and can
//! be paused and resumed, and the grading of the final score.
pub mod catalog;
pub mod grade;
pub mod menu;
pub mod quiz;
pub mod session;
pub mod text;

pub use catalog::QuizList;
pub use grade::{letter_grade, Grade, GradeError, LetterGrade, LetterGradeModifier};
pub use menu::{handle_user_action, read_args, GameState};
pub use quiz::{LoadError, Question, Quiz, ReadyQuiz, UserAnswer};
pub use session::{Session, Submission, SAVE_AND_QUIT};
pub use text::normalize_input;
