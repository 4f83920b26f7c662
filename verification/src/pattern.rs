//! Exclusion patterns: a string is classified by shape into an exact date
//! (`YYYY-MM-DD`), a yearly-repeating wildcard (`*-MM-DD`), or a shape that
//! never matches, and a pattern is matched against a day of the calendar.

use crate::date::{day_number, lemma_day_number_injective, ymd_valid, Date};
use vstd::prelude::*;
use vstd::string::StrSliceExecFns;

verus! {

/// What one exclusion string means.
#[derive(Clone, Copy, Debug)]
pub enum ExclusionPattern {
    /// A literal `YYYY-MM-DD`: matches that one date.
    ExactDate { year: u16, month: u8, day: u8 },
    /// A literal `*-MM-DD`: matches that month and day in every year.
    YearlyWildcard { month: u8, day: u8 },
    /// Any other shape: matches nothing.
    Unrecognized,
}

/// An ASCII decimal digit.
pub open spec fn is_digit(c: char) -> bool {
    48 <= c as u32 <= 57
}

/// Value of an ASCII decimal digit.
pub open spec fn digit_val(c: char) -> int {
    c as u32 - 48
}

/// The exact-date shape: `YYYY-MM-DD`, all digits at the digit positions.
pub open spec fn exact_shape(s: Seq<char>) -> bool {
    &&& s.len() == 10
    &&& is_digit(s[0])
    &&& is_digit(s[1])
    &&& is_digit(s[2])
    &&& is_digit(s[3])
    &&& s[4] == '-'
    &&& is_digit(s[5])
    &&& is_digit(s[6])
    &&& s[7] == '-'
    &&& is_digit(s[8])
    &&& is_digit(s[9])
}

/// The wildcard shape: `*-MM-DD`.
pub open spec fn wildcard_shape(s: Seq<char>) -> bool {
    &&& s.len() == 7
    &&& s[0] == '*'
    &&& s[1] == '-'
    &&& is_digit(s[2])
    &&& is_digit(s[3])
    &&& s[4] == '-'
    &&& is_digit(s[5])
    &&& is_digit(s[6])
}

/// Classification of an exclusion string by its shape.
pub open spec fn parse_exclusion(s: Seq<char>) -> ExclusionPattern {
    if exact_shape(s) {
        ExclusionPattern::ExactDate {
            year: (digit_val(s[0]) * 1000 + digit_val(s[1]) * 100 + digit_val(s[2]) * 10
                + digit_val(s[3])) as u16,
            month: (digit_val(s[5]) * 10 + digit_val(s[6])) as u8,
            day: (digit_val(s[8]) * 10 + digit_val(s[9])) as u8,
        }
    } else if wildcard_shape(s) {
        ExclusionPattern::YearlyWildcard {
            month: (digit_val(s[2]) * 10 + digit_val(s[3])) as u8,
            day: (digit_val(s[5]) * 10 + digit_val(s[6])) as u8,
        }
    } else {
        ExclusionPattern::Unrecognized
    }
}

/// Whether the pattern excludes the day with day number `n`. A pattern whose
/// fields name no real date (month 13, February 30) excludes nothing.
pub open spec fn pattern_excludes(p: ExclusionPattern, n: int) -> bool {
    match p {
        ExclusionPattern::ExactDate { year, month, day } => ymd_valid(
            year as int,
            month as int,
            day as int,
        ) && day_number(year as int, month as int, day as int) == n,
        ExclusionPattern::YearlyWildcard { month, day } => exists|y: int|
            ymd_valid(y, month as int, day as int) && day_number(y, month as int, day as int) == n,
        ExclusionPattern::Unrecognized => false,
    }
}

/// An ASCII decimal digit.
fn char_is_digit(c: char) -> (r: bool)
    ensures
        r == is_digit(c),
{
    let u = c as u32;
    48 <= u && u <= 57
}

/// Value of an ASCII decimal digit.
fn char_digit_val(c: char) -> (r: u8)
    requires
        is_digit(c),
    ensures
        r as int == digit_val(c),
{
    (c as u32 - 48) as u8
}

/// Classifies one exclusion string by its shape.
pub fn parse_exclusion_str(s: &str) -> (p: ExclusionPattern)
    ensures
        p == parse_exclusion(s@),
{
    let n = s.unicode_len();
    if n == 10 {
        let c0 = s.get_char(0);
        let c1 = s.get_char(1);
        let c2 = s.get_char(2);
        let c3 = s.get_char(3);
        let c4 = s.get_char(4);
        let c5 = s.get_char(5);
        let c6 = s.get_char(6);
        let c7 = s.get_char(7);
        let c8 = s.get_char(8);
        let c9 = s.get_char(9);
        if char_is_digit(c0) && char_is_digit(c1) && char_is_digit(c2) && char_is_digit(c3) && c4
            == '-' && char_is_digit(c5) && char_is_digit(c6) && c7 == '-' && char_is_digit(c8)
            && char_is_digit(c9) {
            let year: u16 = char_digit_val(c0) as u16 * 1000 + char_digit_val(c1) as u16 * 100
                + char_digit_val(c2) as u16 * 10 + char_digit_val(c3) as u16;
            let month: u8 = char_digit_val(c5) * 10 + char_digit_val(c6);
            let day: u8 = char_digit_val(c8) * 10 + char_digit_val(c9);
            ExclusionPattern::ExactDate { year, month, day }
        } else {
            ExclusionPattern::Unrecognized
        }
    } else if n == 7 {
        let c0 = s.get_char(0);
        let c1 = s.get_char(1);
        let c2 = s.get_char(2);
        let c3 = s.get_char(3);
        let c4 = s.get_char(4);
        let c5 = s.get_char(5);
        let c6 = s.get_char(6);
        if c0 == '*' && c1 == '-' && char_is_digit(c2) && char_is_digit(c3) && c4 == '-'
            && char_is_digit(c5) && char_is_digit(c6) {
            let month: u8 = char_digit_val(c2) * 10 + char_digit_val(c3);
            let day: u8 = char_digit_val(c5) * 10 + char_digit_val(c6);
            ExclusionPattern::YearlyWildcard { month, day }
        } else {
            ExclusionPattern::Unrecognized
        }
    } else {
        ExclusionPattern::Unrecognized
    }
}

/// The meaning of each exclusion string of the list, in order.
pub open spec fn parsed_patterns(excluded: Seq<String>) -> Seq<ExclusionPattern> {
    excluded.map_values(|s: String| parse_exclusion(s@))
}

/// Classifies every exclusion string of the list.
pub fn parse_exclusions(excluded: &Vec<String>) -> (pats: Vec<ExclusionPattern>)
    ensures
        pats@ == parsed_patterns(excluded@),
{
    let mut pats: Vec<ExclusionPattern> = Vec::new();
    let mut i: usize = 0;
    while i < excluded.len()
        invariant
            i <= excluded@.len(),
            pats@.len() == i,
            forall|j: int| 0 <= j < i ==> pats@[j] == parse_exclusion(excluded@[j]@),
        decreases excluded@.len() - i,
    {
        let p = parse_exclusion_str(excluded[i].as_str());
        pats.push(p);
        i += 1;
    }
    proof {
        assert(pats@ =~= parsed_patterns(excluded@));
    }
    pats
}

/// Whether the pattern matches the date `d`. Matching the day number of `d`
/// comes down to comparing calendar fields, since no two dates share a day
/// number.
pub fn pattern_matches_date(p: &ExclusionPattern, d: &Date) -> (r: bool)
    requires
        d.wf(),
    ensures
        r == pattern_excludes(*p, d.epoch_day()),
{
    match p {
        ExclusionPattern::ExactDate { year, month, day } => {
            let r = *year as i32 == d.year && *month == d.month && *day == d.day;
            proof {
                if !r && pattern_excludes(*p, d.epoch_day()) {
                    lemma_day_number_injective(
                        *year as int,
                        *month as int,
                        *day as int,
                        d.year as int,
                        d.month as int,
                        d.day as int,
                    );
                }
            }
            r
        },
        ExclusionPattern::YearlyWildcard { month, day } => {
            let r = *month == d.month && *day == d.day;
            proof {
                if r {
                    assert(ymd_valid(d.year as int, *month as int, *day as int) && day_number(
                        d.year as int,
                        *month as int,
                        *day as int,
                    ) == d.epoch_day());
                } else if pattern_excludes(*p, d.epoch_day()) {
                    let y1 = choose|y: int|
                        ymd_valid(y, *month as int, *day as int) && day_number(
                            y,
                            *month as int,
                            *day as int,
                        ) == d.epoch_day();
                    lemma_day_number_injective(
                        y1,
                        *month as int,
                        *day as int,
                        d.year as int,
                        d.month as int,
                        d.day as int,
                    );
                }
            }
            r
        },
        ExclusionPattern::Unrecognized => false,
    }
}

/// Whether any pattern of the list excludes the date `d`.
pub fn date_is_excluded(d: &Date, pats: &Vec<ExclusionPattern>) -> (r: bool)
    requires
        d.wf(),
    ensures
        r == exists|i: int|
            0 <= i < pats@.len() && pattern_excludes(pats@[i], d.epoch_day()),
{
    let mut i: usize = 0;
    while i < pats.len()
        invariant
            i <= pats@.len(),
            d.wf(),
            forall|j: int| 0 <= j < i ==> !pattern_excludes(pats@[j], d.epoch_day()),
        decreases pats@.len() - i,
    {
        if pattern_matches_date(&pats[i], d) {
            return true;
        }
        i += 1;
    }
    false
}

} // verus!
