//! Multi-agent reasoning layer.
//!
//! Each analyst examines one facet of the market and returns a stance with a
//! confidence and its supporting evidence. The risk manager holds
//! unconditional veto authority over whatever they conclude.

pub mod risk;

pub use risk::{RiskDecision, RiskManager, RiskState};

use crate::decimal::{Decimal, SCALE};
use vstd::prelude::*;

verus! {

/// Which way an agent leans.
#[derive(Debug, Clone, Copy, PartialEq, Eq, Structural)]
pub enum Stance {
    Bullish,
    Bearish,
    /// No opinion: counts toward neither side of the debate.
    Neutral,
}

impl Stance {
    /// The direction of a stance.
    pub open spec fn spec_direction(self) -> int {
        match self {
            Stance::Bullish => 1,
            Stance::Bearish => -1,
            Stance::Neutral => 0,
        }
    }

    /// The stance of a direction.
    pub open spec fn of_direction(d: int) -> Stance {
        if d > 0 {
            Stance::Bullish
        } else if d < 0 {
            Stance::Bearish
        } else {
            Stance::Neutral
        }
    }

    /// The name of a stance.
    pub open spec fn name(self) -> Seq<char> {
        match self {
            Stance::Bullish => "BULLISH"@,
            Stance::Bearish => "BEARISH"@,
            Stance::Neutral => "NEUTRAL"@,
        }
    }

    /// `+1` bullish, `-1` bearish, `0` neutral.
    pub fn direction(&self) -> (d: i8)
        ensures
            d == self.spec_direction(),
    {
        match self {
            Stance::Bullish => 1,
            Stance::Bearish => -1,
            Stance::Neutral => 0,
        }
    }

    pub fn from_direction(d: i8) -> (s: Self)
        ensures
            s == Stance::of_direction(d as int),
    {
        if d > 0 {
            Stance::Bullish
        } else if d < 0 {
            Stance::Bearish
        } else {
            Stance::Neutral
        }
    }

    pub fn as_str(&self) -> (s: &'static str)
        ensures
            s@ == self.name(),
    {
        match self {
            Stance::Bullish => "BULLISH",
            Stance::Bearish => "BEARISH",
            Stance::Neutral => "NEUTRAL",
        }
    }
}

/// The direction of a stance leads back to it.
pub proof fn stance_round_trip(s: Stance)
    ensures
        Stance::of_direction(s.spec_direction()) == s,
{
}

/// One agent's contribution to the debate.
#[derive(Debug, Clone)]
pub struct AgentView {
    /// Agent name, such as `"TechnicalAnalyst"`.
    pub agent: String,
    pub stance: Stance,
    /// How strongly this agent holds its view, 0 to 100.
    pub confidence: Decimal,
    /// This agent's say in the debate relative to the others.
    pub weight: Decimal,
    /// Human-readable support for the stance, shown in the debate log.
    pub evidence: Vec<String>,
}

impl AgentView {
    /// A view without an opinion, and the reason for having none.
    pub fn neutral(agent: &str, weight: Decimal, why: &str) -> (v: Self)
        ensures
            v.agent@ == agent@,
            v.stance is Neutral,
            v.confidence@ == 0,
            v.weight == weight,
            v.evidence@.len() == 1,
            v.evidence@[0]@ == why@,
    {
        let mut evidence: Vec<String> = Vec::new();
        evidence.push(why.to_owned());
        AgentView {
            agent: agent.to_owned(),
            stance: Stance::Neutral,
            confidence: Decimal { micros: 0 },
            weight,
            evidence,
        }
    }

    /// Confidence clamped into `[0, 100]`, so a miscomputed score can never
    /// give one agent outsized pull in the debate.
    pub fn clamped_confidence(&self) -> (c: Decimal)
        ensures
            c@ == if self.confidence@ < 0 {
                0
            } else if self.confidence@ > 100 * SCALE {
                100 * SCALE
            } else {
                self.confidence@
            },
    {
        if self.confidence.micros < 0 {
            Decimal { micros: 0 }
        } else if self.confidence.micros > 100 * SCALE {
            Decimal { micros: 100 * SCALE }
        } else {
            self.confidence
        }
    }
}

/// Stances and directions correspond: up is bullish, down is bearish, and no
/// direction is no opinion, whichever way it is asked.
pub proof fn stances_follow_directions(d: i8, s: Stance, t: Stance, e: i8)
    requires
        call_ensures(Stance::from_direction, (d,), s),
        call_ensures(Stance::direction, (&t,), e),
    ensures
        s is Bullish <==> d > 0,
        s is Bearish <==> d < 0,
        s is Neutral <==> d == 0,
        e == 1 <==> t is Bullish,
        e == -1 <==> t is Bearish,
        e == 0 <==> t is Neutral,
{
}

/// Each stance has its own name.
pub proof fn stances_are_named(s: Stance, name: &'static str)
    requires
        call_ensures(Stance::as_str, (&s,), name),
    ensures
        name@ == "BULLISH"@ <==> s is Bullish,
        name@ == "BEARISH"@ <==> s is Bearish,
        name@ == "NEUTRAL"@ <==> s is Neutral,
{
    reveal_strlit("BULLISH");
    reveal_strlit("BEARISH");
    reveal_strlit("NEUTRAL");
    assert("BULLISH"@[0] == 'B' && "BEARISH"@[0] == 'B' && "NEUTRAL"@[0] == 'N');
    assert("BULLISH"@[1] == 'U' && "BEARISH"@[1] == 'E');
}

/// A clamped confidence lies between nothing and a hundred, is the confidence
/// itself where that does, and is never further from it than it must be.
pub proof fn confidence_is_clamped(v: AgentView, c: Decimal)
    requires
        call_ensures(AgentView::clamped_confidence, (&v,), c),
    ensures
        0 <= c@ <= 100_000_000,
        0 <= v.confidence@ <= 100_000_000 ==> c == v.confidence,
        v.confidence@ < 0 ==> c@ == 0,
        v.confidence@ > 100_000_000 ==> c@ == 100_000_000,
{
}

/// A view without an opinion names its agent and its weight, leans nowhere with
/// no confidence, and gives the one reason.
pub proof fn neutral_views_lean_nowhere(agent: &str, weight: Decimal, why: &str, v: AgentView)
    requires
        call_ensures(AgentView::neutral, (agent, weight, why), v),
    ensures
        v.agent@ == agent@,
        v.stance is Neutral,
        v.confidence@ == 0,
        v.weight == weight,
        v.evidence@.len() == 1,
        v.evidence@[0]@ == why@,
{
}

} // verus!
