//! Turning a score into a letter grade, a printable label and a flavour message.
use rand::seq::SliceRandom;
use vstd::arithmetic::div_mod::lemma_div_is_ordered;
use vstd::prelude::*;

verus! {

/// The letter of a grade, without its modifier.
#[derive(Clone, Copy, Debug, PartialEq, Eq, Structural)]
pub enum LetterGrade {
    A,
    B,
    C,
    D,
    F,
}

/// The `+`, nothing or `-` that follows a letter.
#[derive(Clone, Copy, Debug, PartialEq, Eq, Structural)]
pub enum LetterGradeModifier {
    Plus,
    Mid,
    Minus,
}

/// One band of the grade scale.
#[derive(Clone, Copy, Debug, PartialEq, Eq, Structural)]
pub struct Grade {
    pub grade: LetterGrade,
    pub modifier: LetterGradeModifier,
}

/// Why no grade could be given.
#[derive(Clone, Copy, Debug, PartialEq, Eq, Structural)]
pub enum GradeError {
    /// A quiz without questions has no percentage.
    ZeroTotal,
    /// More correct answers than questions lies outside the scale.
    ScoreAboveTotal,
}

pub open spec fn band(grade: LetterGrade, modifier: LetterGradeModifier) -> Grade {
    Grade { grade, modifier }
}

/// The grade scale: percentage bands, lowest first.
pub open spec fn grade_for_percentage(p: int) -> Grade {
    if p >= 97 {
        band(LetterGrade::A, LetterGradeModifier::Plus)
    } else if p >= 94 {
        band(LetterGrade::A, LetterGradeModifier::Mid)
    } else if p >= 90 {
        band(LetterGrade::A, LetterGradeModifier::Minus)
    } else if p >= 87 {
        band(LetterGrade::B, LetterGradeModifier::Plus)
    } else if p >= 84 {
        band(LetterGrade::B, LetterGradeModifier::Mid)
    } else if p >= 80 {
        band(LetterGrade::B, LetterGradeModifier::Minus)
    } else if p >= 77 {
        band(LetterGrade::C, LetterGradeModifier::Plus)
    } else if p >= 74 {
        band(LetterGrade::C, LetterGradeModifier::Mid)
    } else if p >= 70 {
        band(LetterGrade::C, LetterGradeModifier::Minus)
    } else if p >= 67 {
        band(LetterGrade::D, LetterGradeModifier::Plus)
    } else if p >= 64 {
        band(LetterGrade::D, LetterGradeModifier::Mid)
    } else if p >= 60 {
        band(LetterGrade::D, LetterGradeModifier::Minus)
    } else if p >= 50 {
        band(LetterGrade::F, LetterGradeModifier::Plus)
    } else {
        band(LetterGrade::F, LetterGradeModifier::Minus)
    }
}

/// `floor(score * 100 / total)`.
pub open spec fn percentage(score: int, total: int) -> int
    recommends
        total > 0,
{
    (score * 100) / total
}

pub open spec fn letter_rank(l: LetterGrade) -> int {
    match l {
        LetterGrade::F => 0,
        LetterGrade::D => 1,
        LetterGrade::C => 2,
        LetterGrade::B => 3,
        LetterGrade::A => 4,
    }
}

pub open spec fn modifier_rank(m: LetterGradeModifier) -> int {
    match m {
        LetterGradeModifier::Minus => 0,
        LetterGradeModifier::Mid => 1,
        LetterGradeModifier::Plus => 2,
    }
}

/// The position of a grade on the scale: `F-` is lowest, `A+` highest.
pub open spec fn grade_rank(g: Grade) -> int {
    3 * letter_rank(g.grade) + modifier_rank(g.modifier)
}

impl Grade {
    /// The band of the scale that holds `percentage`.
    pub fn from_percentage(percentage: u64) -> (g: Grade)
        ensures
            g == grade_for_percentage(percentage as int),
    {
        let (grade, modifier) = if percentage >= 97 {
            (LetterGrade::A, LetterGradeModifier::Plus)
        } else if percentage >= 94 {
            (LetterGrade::A, LetterGradeModifier::Mid)
        } else if percentage >= 90 {
            (LetterGrade::A, LetterGradeModifier::Minus)
        } else if percentage >= 87 {
            (LetterGrade::B, LetterGradeModifier::Plus)
        } else if percentage >= 84 {
            (LetterGrade::B, LetterGradeModifier::Mid)
        } else if percentage >= 80 {
            (LetterGrade::B, LetterGradeModifier::Minus)
        } else if percentage >= 77 {
            (LetterGrade::C, LetterGradeModifier::Plus)
        } else if percentage >= 74 {
            (LetterGrade::C, LetterGradeModifier::Mid)
        } else if percentage >= 70 {
            (LetterGrade::C, LetterGradeModifier::Minus)
        } else if percentage >= 67 {
            (LetterGrade::D, LetterGradeModifier::Plus)
        } else if percentage >= 64 {
            (LetterGrade::D, LetterGradeModifier::Mid)
        } else if percentage >= 60 {
            (LetterGrade::D, LetterGradeModifier::Minus)
        } else if percentage >= 50 {
            (LetterGrade::F, LetterGradeModifier::Plus)
        } else {
            (LetterGrade::F, LetterGradeModifier::Minus)
        };
        Grade { grade, modifier }
    }
}

impl From<u8> for Grade {
    fn from(score: u8) -> (g: Grade) {
        Grade::from_percentage(score as u64)
    }
}

impl vstd::std_specs::convert::FromSpecImpl<u8> for Grade {
    open spec fn obeys_from_spec() -> bool {
        true
    }

    open spec fn from_spec(v: u8) -> Grade {
        grade_for_percentage(v as int)
    }
}

/// The percentage that `score` correct answers out of `total` make, or why
/// there is none: no questions, or more correct answers than questions.
pub open spec fn percentage_of(score: int, total: int) -> Result<int, GradeError> {
    if total == 0 {
        Err(GradeError::ZeroTotal)
    } else if score > total {
        Err(GradeError::ScoreAboveTotal)
    } else {
        Ok(percentage(score, total))
    }
}

/// The grade that `score` correct answers out of `total` earn, or why there is
/// none.
pub open spec fn grade_of(score: int, total: int) -> Result<Grade, GradeError> {
    match percentage_of(score, total) {
        Ok(p) => Ok(grade_for_percentage(p)),
        Err(e) => Err(e),
    }
}

/// `floor(score * 100 / total)`, between 0 and 100.
pub fn grade_percentage(score: u32, total: u32) -> (r: Result<u64, GradeError>)
    ensures
        r == match percentage_of(score as int, total as int) {
            Ok(p) => Ok::<u64, GradeError>(p as u64),
            Err(e) => Err(e),
        },
        r matches Ok(p) ==> p <= 100,
{
    if total == 0 {
        return Err(GradeError::ZeroTotal);
    }
    if score > total {
        return Err(GradeError::ScoreAboveTotal);
    }
    let scaled: u64 = score as u64 * 100;
    proof {
        vstd::arithmetic::div_mod::lemma_div_is_ordered(
            score as int * 100,
            total as int * 100,
            total as int,
        );
        assert((total as int * 100) / total as int == 100) by (nonlinear_arith)
            requires
                total > 0,
        ;
    }
    Ok(scaled / total as u64)
}

/// The grade that `score` correct answers out of `total` earn.
pub fn letter_grade(score: u32, total: u32) -> (r: Result<Grade, GradeError>)
    ensures
        r == grade_of(score as int, total as int),
{
    match grade_percentage(score, total) {
        Ok(p) => Ok(Grade::from_percentage(p)),
        Err(e) => Err(e),
    }
}

/// A higher percentage never earns a lower grade.
pub proof fn lemma_grade_for_percentage_monotonic(p1: int, p2: int)
    requires
        p1 <= p2,
    ensures
        grade_rank(grade_for_percentage(p1)) <= grade_rank(grade_for_percentage(p2)),
{
}

/// For a fixed number of questions, more correct answers never earn a lower
/// grade; and there is no grade for a quiz without questions.
pub proof fn lemma_letter_grade_monotonic(s1: u32, s2: u32, total: u32)
    requires
        s1 <= s2 <= total,
    ensures
        total > 0 ==> grade_of(s1 as int, total as int) is Ok && grade_of(s2 as int, total as int) is Ok
            && grade_rank(grade_of(s1 as int, total as int)->Ok_0) <= grade_rank(
            grade_of(s2 as int, total as int)->Ok_0,
        ),
        total == 0 ==> grade_of(s1 as int, total as int) == Err::<Grade, GradeError>(
            GradeError::ZeroTotal,
        ),
{
    if total > 0 {
        lemma_div_is_ordered(s1 * 100, s2 * 100, total as int);
        lemma_grade_for_percentage_monotonic(
            percentage(s1 as int, total as int),
            percentage(s2 as int, total as int),
        );
    }
}

pub open spec fn letter_text(l: LetterGrade) -> Seq<char> {
    match l {
        LetterGrade::A => "A"@,
        LetterGrade::B => "B"@,
        LetterGrade::C => "C"@,
        LetterGrade::D => "D"@,
        LetterGrade::F => "F"@,
    }
}

pub open spec fn modifier_text(m: LetterGradeModifier) -> Seq<char> {
    match m {
        LetterGradeModifier::Plus => "+"@,
        LetterGradeModifier::Mid => ""@,
        LetterGradeModifier::Minus => "-"@,
    }
}

/// How a grade is shown: `Grade: B+`.
pub open spec fn label_text(g: Grade) -> Seq<char> {
    "Grade: "@ + letter_text(g.grade) + modifier_text(g.modifier)
}

/// The flavour messages for each letter.
pub open spec fn messages_for(l: LetterGrade) -> Seq<Seq<char>> {
    match l {
        LetterGrade::A => seq![
            "Fantastic work!"@,
            "Oh shit!"@,
            "Jesus!"@,
            "Fucking Hell!"@,
            "I'm not worthy of your presence!"@,
        ],
        LetterGrade::B => seq![
            "Nice."@,
            "Could've been better."@,
            "Alright, good job!"@,
            "Close enough I suppose."@,
            "Nice work keeping above C level."@,
        ],
        LetterGrade::C => seq![
            "Acceptable."@,
            "Ok. Sure."@,
            "Nothing special."@,
            "Cs get degrees."@,
        ],
        LetterGrade::D => seq![
            "Cutting it close eh?"@,
            "Bah, you'll get em next time."@,
            "Hey, that's passing right?"@,
            "Do better."@,
            "You got this. Never surrender. Give it another try."@,
        ],
        LetterGrade::F => seq![
            "Damn, you fucking suck."@,
            "Jesus man. Really?"@,
            "Were you even trying?"@,
            "Looks like all those brain cells really are gone."@,
            "Sheeesh, nice work bro."@,
            "Fucking dumb ass."@,
            "Bruh"@,
        ],
    }
}

pub open spec fn str_views(v: Seq<&str>) -> Seq<Seq<char>> {
    v.map_values(|s: &str| s@)
}

/// Relies on rand's `SliceRandom::choose` on a slice: `None` exactly when the
/// slice is empty, else a reference to one of its elements.
#[verifier::external_body]
fn choose_one(pool: &Vec<&'static str>) -> (r: Option<&'static str>)
    ensures
        r is None <==> pool@.len() == 0,
        r matches Some(m) ==> pool@.contains(m),
{
    pool.as_slice().choose(&mut rand::thread_rng()).copied()
}

impl LetterGrade {
    pub fn as_str(&self) -> (r: &'static str)
        ensures
            r@ == letter_text(*self),
    {
        match self {
            LetterGrade::A => "A",
            LetterGrade::B => "B",
            LetterGrade::C => "C",
            LetterGrade::D => "D",
            LetterGrade::F => "F",
        }
    }

    /// The pool of flavour messages for this letter.
    pub fn messages(&self) -> (r: Vec<&'static str>)
        ensures
            str_views(r@) == messages_for(*self),
    {
        let v = match self {
            LetterGrade::A => vec![
                "Fantastic work!",
                "Oh shit!",
                "Jesus!",
                "Fucking Hell!",
                "I'm not worthy of your presence!",
            ],
            LetterGrade::B => vec![
                "Nice.",
                "Could've been better.",
                "Alright, good job!",
                "Close enough I suppose.",
                "Nice work keeping above C level.",
            ],
            LetterGrade::C => vec!["Acceptable.", "Ok. Sure.", "Nothing special.", "Cs get degrees."],
            LetterGrade::D => vec![
                "Cutting it close eh?",
                "Bah, you'll get em next time.",
                "Hey, that's passing right?",
                "Do better.",
                "You got this. Never surrender. Give it another try.",
            ],
            LetterGrade::F => vec![
                "Damn, you fucking suck.",
                "Jesus man. Really?",
                "Were you even trying?",
                "Looks like all those brain cells really are gone.",
                "Sheeesh, nice work bro.",
                "Fucking dumb ass.",
                "Bruh",
            ],
        };
        assert(str_views(v@) =~= messages_for(*self));
        v
    }
}

impl LetterGradeModifier {
    pub fn as_str(&self) -> (r: &'static str)
        ensures
            r@ == modifier_text(*self),
    {
        match self {
            LetterGradeModifier::Plus => "+",
            LetterGradeModifier::Mid => "",
            LetterGradeModifier::Minus => "-",
        }
    }
}

impl Grade {
    /// The grade as shown to the user, such as `Grade: A-`.
    pub fn label(&self) -> (r: String)
        ensures
            r@ == label_text(*self),
    {
        let mut s = String::from_str("Grade: ");
        s.append(self.grade.as_str());
        s.append(self.modifier.as_str());
        s
    }

    /// One message, picked at random, from the pool of this grade's letter
    /// (the modifier plays no part).
    pub fn random_grade_message(&self) -> (r: &'static str)
        ensures
            messages_for(self.grade).contains(r@),
    {
        let pool = self.grade.messages();
        match choose_one(&pool) {
            Some(m) => {
                proof {
                    let i = choose|i: int| 0 <= i < pool@.len() && pool@[i] == m;
                    assert(str_views(pool@)[i] == m@);
                }
                m
            },
            None => {
                // every pool holds several messages
                proof {
                    assert(messages_for(self.grade).len() > 0);
                    assert(str_views(pool@).len() == pool@.len());
                }
                pool[0]
            },
        }
    }
}

} // verus!
