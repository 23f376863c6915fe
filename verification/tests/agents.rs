use trading_engine::decimal::Decimal;
use trading_engine::strategy::agents::{AgentView, Stance};

fn d(x: f64) -> Decimal {
    Decimal { micros: (x * 1_000_000.0).round() as i128 }
}

#[test]
fn stance_direction_round_trips() {
    for s in [Stance::Bullish, Stance::Bearish, Stance::Neutral] {
        assert_eq!(Stance::from_direction(s.direction()), s);
    }
}

#[test]
fn confidence_is_clamped_into_range() {
    let v = AgentView { agent: "X".into(), stance: Stance::Bullish, confidence: d(900.0), weight: d(1.0), evidence: vec![] };
    assert_eq!(v.clamped_confidence(), d(100.0), "a runaway score must not dominate the debate");

    let n = AgentView { agent: "X".into(), stance: Stance::Bearish, confidence: d(-50.0), weight: d(1.0), evidence: vec![] };
    assert_eq!(n.clamped_confidence(), d(0.0));
}

#[test]
fn neutral_view_carries_its_reason() {
    let v = AgentView::neutral("TechnicalAnalyst", d(1.0), "not warm yet");
    assert_eq!(v.stance, Stance::Neutral);
    assert_eq!(v.confidence, d(0.0));
    assert_eq!(v.evidence, vec!["not warm yet".to_string()]);
}

#[test]
fn any_positive_direction_is_bullish_and_any_negative_bearish() {
    assert_eq!(Stance::from_direction(7), Stance::Bullish);
    assert_eq!(Stance::from_direction(-128), Stance::Bearish);
    assert_eq!(Stance::from_direction(0), Stance::Neutral);
}

#[test]
fn stances_have_names() {
    assert_eq!(Stance::Bullish.as_str(), "BULLISH");
    assert_eq!(Stance::Bearish.as_str(), "BEARISH");
    assert_eq!(Stance::Neutral.as_str(), "NEUTRAL");
}

#[test]
fn confidence_in_range_is_kept() {
    let mut v = AgentView::neutral("X", d(2.0), "why");
    v.confidence = d(42.5);
    assert_eq!(v.clamped_confidence(), d(42.5));
    assert_eq!(v.agent, "X");
    assert_eq!(v.weight, d(2.0));
}
