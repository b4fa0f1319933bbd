use rust_quiz_game::grade::{grade_percentage, GradeError};
use rust_quiz_game::{letter_grade, Grade, LetterGrade, LetterGradeModifier};

fn rank(g: Grade) -> u32 {
    let letter = match g.grade {
        LetterGrade::F => 0,
        LetterGrade::D => 1,
        LetterGrade::C => 2,
        LetterGrade::B => 3,
        LetterGrade::A => 4,
    };
    let modifier = match g.modifier {
        LetterGradeModifier::Minus => 0,
        LetterGradeModifier::Mid => 1,
        LetterGradeModifier::Plus => 2,
    };
    3 * letter + modifier
}

#[test]
fn band_edges() {
    let cases: [(u8, &str); 22] = [
        (0, "Grade: F-"),
        (49, "Grade: F-"),
        (50, "Grade: F+"),
        (59, "Grade: F+"),
        (60, "Grade: D-"),
        (63, "Grade: D-"),
        (64, "Grade: D"),
        (67, "Grade: D+"),
        (70, "Grade: C-"),
        (74, "Grade: C"),
        (77, "Grade: C+"),
        (79, "Grade: C+"),
        (80, "Grade: B-"),
        (84, "Grade: B"),
        (87, "Grade: B+"),
        (90, "Grade: A-"),
        (93, "Grade: A-"),
        (94, "Grade: A"),
        (96, "Grade: A"),
        (97, "Grade: A+"),
        (100, "Grade: A+"),
        (255, "Grade: A+"),
    ];
    for (p, label) in cases {
        assert_eq!(Grade::from(p).label(), label, "percentage {p}");
    }
}

#[test]
fn percentage_is_floored() {
    assert_eq!(grade_percentage(2, 3), Ok(66));
    assert_eq!(grade_percentage(1, 3), Ok(33));
    assert_eq!(grade_percentage(7, 7), Ok(100));
    assert_eq!(letter_grade(2, 3).unwrap().label(), "Grade: D");
    assert_eq!(letter_grade(29, 30).unwrap().label(), "Grade: A");
}

#[test]
fn zero_total_is_refused() {
    assert_eq!(letter_grade(0, 0), Err(GradeError::ZeroTotal));
    assert_eq!(letter_grade(5, 0), Err(GradeError::ZeroTotal));
    assert_eq!(grade_percentage(1, 0), Err(GradeError::ZeroTotal));
}

#[test]
fn score_above_total_is_refused() {
    assert_eq!(letter_grade(11, 10), Err(GradeError::ScoreAboveTotal));
    assert_eq!(grade_percentage(2, 1), Err(GradeError::ScoreAboveTotal));
    assert_eq!(letter_grade(10, 10).unwrap().label(), "Grade: A+");
    assert_eq!(grade_percentage(10, 10), Ok(100));
}

#[test]
fn grade_never_drops_as_score_rises() {
    for total in 1..=40u32 {
        let mut last = 0;
        for score in 0..=total {
            let r = rank(letter_grade(score, total).unwrap());
            assert!(r >= last, "score {score} of {total}");
            last = r;
        }
    }
}

#[test]
fn random_message_comes_from_the_letter_pool() {
    for letter in [LetterGrade::A, LetterGrade::B, LetterGrade::C, LetterGrade::D, LetterGrade::F] {
        let pool = letter.messages();
        assert!(pool.len() >= 4);
        for modifier in [LetterGradeModifier::Plus, LetterGradeModifier::Mid, LetterGradeModifier::Minus] {
            let g = Grade { grade: letter, modifier };
            for _ in 0..10 {
                assert!(pool.contains(&g.random_grade_message()));
            }
        }
    }
    assert_eq!(LetterGrade::C.messages()[0], "Acceptable.");
    assert_eq!(LetterGrade::F.messages().len(), 7);
}
