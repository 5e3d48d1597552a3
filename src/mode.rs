use crate::text::{decimal, decimal_string, two_digit_string, two_digits};
use vstd::prelude::*;

verus! {

/// The game modes whose leaderboards are tracked.
#[derive(Debug, Clone, Copy, PartialEq, Eq, Structural)]
pub enum GameMode {
    Sprint,
    Challenge,
    Stunt,
}

/// Whether `a` beats `b` in `mode`: times (Sprint, Challenge) are better when
/// lower, points (Stunt) when higher.
pub open spec fn better_score(a: int, b: int, mode: GameMode) -> bool {
    match mode {
        GameMode::Sprint | GameMode::Challenge => a < b,
        GameMode::Stunt => a > b,
    }
}

/// Whether `score_1` is strictly better than `score_2` under the ordering of
/// `game_mode`.
pub fn is_score_better(score_1: i32, score_2: i32, game_mode: GameMode) -> (r: bool)
    ensures
        r == better_score(score_1 as int, score_2 as int, game_mode),
{
    match game_mode {
        GameMode::Sprint | GameMode::Challenge => score_1 < score_2,
        GameMode::Stunt => score_1 > score_2,
    }
}

impl GameMode {
    /// The mode's display name, which is also the workshop tag of its levels.
    pub open spec fn name_spec(self) -> Seq<char> {
        match self {
            GameMode::Sprint => seq!['S', 'p', 'r', 'i', 'n', 't'],
            GameMode::Challenge => seq!['C', 'h', 'a', 'l', 'l', 'e', 'n', 'g', 'e'],
            GameMode::Stunt => seq!['S', 't', 'u', 'n', 't'],
        }
    }

    /// Whether the mode's scores are times in milliseconds.
    pub open spec fn is_timed(self) -> bool {
        self is Sprint || self is Challenge
    }

    pub fn name(&self) -> (r: &'static str)
        ensures
            r@ == self.name_spec(),
    {
        proof {
            reveal_strlit("Sprint");
            reveal_strlit("Challenge");
            reveal_strlit("Stunt");
        }
        match self {
            GameMode::Sprint => "Sprint",
            GameMode::Challenge => "Challenge",
            GameMode::Stunt => "Stunt",
        }
    }
}

/// The modes in the order in which their levels are listed.
pub open spec fn all_modes() -> Seq<GameMode> {
    seq![GameMode::Sprint, GameMode::Challenge, GameMode::Stunt]
}

/// A time of `ms` milliseconds as `hh:mm:ss.cc` (hours take as many digits as
/// they need, hundredths are truncated).
pub open spec fn time_text(ms: nat) -> Seq<char> {
    two_digits(ms / 3_600_000) + seq![':'] + two_digits((ms / 60_000) % 60) + seq![':']
        + two_digits((ms / 1000) % 60) + seq!['.'] + two_digits((ms % 1000) / 10)
}

/// A whole number in decimal, with a minus sign when negative.
pub open spec fn signed_decimal(n: int) -> Seq<char> {
    if n < 0 {
        seq!['-'] + decimal((-n) as nat)
    } else {
        decimal(n as nat)
    }
}

/// How a raw score reads in `mode`; a negative time has no reading.
pub open spec fn score_text(score: int, mode: GameMode) -> Option<Seq<char>> {
    if mode.is_timed() {
        if score >= 0 {
            Some(time_text(score as nat))
        } else {
            None
        }
    } else {
        Some(signed_decimal(score))
    }
}

/// Formats a raw leaderboard score for display in `mode`.
pub fn format_score(score: i32, mode: GameMode) -> (r: Option<String>)
    ensures
        r matches Some(s) ==> score_text(score as int, mode) == Some(s@),
        r is None ==> score_text(score as int, mode) is None,
{
    proof {
        reveal_strlit(":");
        reveal_strlit(".");
        reveal_strlit("-");
    }
    if mode != GameMode::Stunt {
        if score < 0 {
            return None;
        }
        let ms = score as u64;
        let mut s = two_digit_string(ms / 3_600_000);
        s.append(":");
        let m = two_digit_string((ms / 60_000) % 60);
        s.append(m.as_str());
        s.append(":");
        let sec = two_digit_string((ms / 1000) % 60);
        s.append(sec.as_str());
        s.append(".");
        let cs = two_digit_string((ms % 1000) / 10);
        s.append(cs.as_str());
        Some(s)
    } else if score < 0 {
        let mut s = String::from_str("-");
        let digits = decimal_string((-(score as i64)) as u64);
        s.append(digits.as_str());
        Some(s)
    } else {
        Some(decimal_string(score as u64))
    }
}

} // verus!
