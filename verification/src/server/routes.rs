//! Decisions behind the strategy API.

use crate::decimal::Decimal;
use crate::strategy::agents::RiskState;
use crate::strategy::config::StrategyConfig;
use vstd::prelude::*;

verus! {

/// Query of the decision log.
#[derive(Debug, Clone, Copy)]
pub struct HistoryQuery {
    pub limit: Option<i64>,
}

impl HistoryQuery {
    /// How many decisions are returned: fifty unless asked otherwise, at least
    /// one and at most five hundred.
    pub fn effective_limit(&self) -> (n: i64)
        ensures
            1 <= n <= 500,
            n == match self.limit {
                None => 50int,
                Some(l) => if l < 1 {
                    1
                } else if l > 500 {
                    500
                } else {
                    l as int
                },
            },
    {
        let asked: i64 = match self.limit {
            Some(l) => l,
            None => 50,
        };
        if asked < 1 {
            1
        } else if asked > 500 {
            500
        } else {
            asked
        }
    }
}

/// What a replacement of the configuration does next.
#[derive(Debug)]
pub enum ConfigStep {
    /// Store the configuration.
    Save,
    /// Apply it to the running engine.
    Apply,
    /// Answer with this status and message; nothing is stored or applied.
    Refuse { status: u16, message: String },
}

/// Status of a request that was not acceptable.
pub const BAD_REQUEST: u16 = 400;

/// Status of a request that could not be carried out.
pub const INTERNAL_SERVER_ERROR: u16 = 500;

impl ConfigStep {
    /// The step that follows the validation of a new configuration.
    pub open spec fn of_validation(outcome: Result<(), String>) -> ConfigStep {
        match outcome {
            Ok(_) => ConfigStep::Save,
            Err(e) => ConfigStep::Refuse { status: BAD_REQUEST, message: e },
        }
    }

    /// The step that follows the storing of a new configuration.
    pub open spec fn of_save(outcome: Result<(), String>) -> ConfigStep {
        match outcome {
            Ok(_) => ConfigStep::Apply,
            Err(e) => ConfigStep::Refuse { status: INTERNAL_SERVER_ERROR, message: e },
        }
    }
}

/// What follows the validation of a new configuration. It runs before anything
/// is stored or applied, so a bad threshold is rejected at the edge.
pub fn after_validation(outcome: Result<(), String>) -> (step: ConfigStep)
    ensures
        step == ConfigStep::of_validation(outcome),
{
    match outcome {
        Ok(_) => ConfigStep::Save,
        Err(e) => ConfigStep::Refuse { status: BAD_REQUEST, message: e },
    }
}

/// What follows the storing of a new configuration.
pub fn after_save(outcome: Result<(), String>) -> (step: ConfigStep)
    ensures
        step == ConfigStep::of_save(outcome),
{
    match outcome {
        Ok(_) => ConfigStep::Apply,
        Err(e) => ConfigStep::Refuse { status: INTERNAL_SERVER_ERROR, message: e },
    }
}

/// The strategy configuration in its two places.
pub struct ConfigPlaces {
    /// The one in the database, if any is.
    pub stored: Option<StrategyConfig>,
    /// The one that the engine runs on.
    pub running: StrategyConfig,
}

impl ConfigPlaces {
    /// What one step of replacing the configuration by `new` does, given whether
    /// it succeeded.
    pub open spec fn step(self, step: ConfigStep, ok: bool, new: StrategyConfig) -> ConfigPlaces {
        match step {
            ConfigStep::Save => if ok {
                ConfigPlaces { stored: Some(new), ..self }
            } else {
                self
            },
            ConfigStep::Apply => ConfigPlaces { running: new, ..self },
            ConfigStep::Refuse { .. } => self,
        }
    }

    /// The last step of replacing the configuration by `new`, and where that
    /// leaves the two places: validation, then storing, then applying, each only
    /// after the one before it succeeded.
    pub open spec fn replaced(
        self,
        new: StrategyConfig,
        validation: Result<(), String>,
        saving: Result<(), String>,
    ) -> (ConfigStep, ConfigPlaces) {
        let first = ConfigStep::of_validation(validation);
        let then = self.step(first, saving is Ok, new);
        if first is Save {
            let second = ConfigStep::of_save(saving);
            (second, then.step(second, true, new))
        } else {
            (first, then)
        }
    }
}

/// A new configuration reaches the engine only after it was validated and
/// stored. One that fails validation is refused as a bad request and changes
/// neither place; one that cannot be stored is refused as an internal error and
/// the engine keeps running on the old one; otherwise both places hold the new
/// one.
pub proof fn configuration_is_stored_before_it_runs(
    places: ConfigPlaces,
    new: StrategyConfig,
    validation: Result<(), String>,
    saving: Result<(), String>,
)
    ensures
        ({
            let (last, after) = places.replaced(new, validation, saving);
            match (validation, saving) {
                (Err(e), _) => {
                    &&& last == ConfigStep::Refuse { status: BAD_REQUEST, message: e }
                    &&& after == places
                },
                (Ok(_), Err(e)) => {
                    &&& last == ConfigStep::Refuse { status: INTERNAL_SERVER_ERROR, message: e }
                    &&& after == places
                },
                (Ok(_), Ok(_)) => {
                    &&& last is Apply
                    &&& after.stored == Some(new)
                    &&& after.running == new
                },
            }
        }),
{
}

/// Whatever the outcomes, the engine runs on the old configuration or on one
/// that the database holds.
pub proof fn running_configuration_is_old_or_stored(
    places: ConfigPlaces,
    new: StrategyConfig,
    validation: Result<(), String>,
    saving: Result<(), String>,
)
    ensures
        ({
            let after = places.replaced(new, validation, saving).1;
            after.running == places.running || after.stored == Some(after.running)
        }),
{
}

/// Replaces the configuration of the running engine, which is the step
/// [`ConfigStep::Apply`]; returns whether that switched it on or off.
pub fn apply_config(running: &mut StrategyConfig, new: StrategyConfig) -> (toggled: bool)
    ensures
        *final(running) == new,
        toggled == (new.enabled != old(running).enabled),
{
    let was_enabled: bool = running.enabled;
    *running = new;
    new.enabled != was_enabled
}

/// Answer to a replaced configuration.
#[derive(Debug, Clone, Copy, PartialEq, Eq, Structural)]
pub struct ConfigReply {
    pub ok: bool,
    pub enabled: bool,
}

/// Answer to a replaced configuration.
pub fn config_reply(cfg: &StrategyConfig) -> (r: ConfigReply)
    ensures
        r == (ConfigReply { ok: true, enabled: cfg.enabled }),
{
    ConfigReply { ok: true, enabled: cfg.enabled }
}

/// Answer to a halt.
#[derive(Debug, Clone, Copy, PartialEq, Eq, Structural)]
pub struct HaltReply {
    pub ok: bool,
    pub halted: bool,
}

/// Stops the engine taking new entries for the session.
pub fn halt(risk: &mut RiskState) -> (r: HaltReply)
    ensures
        r == (HaltReply { ok: true, halted: true }),
        final(risk).halted_reason matches Some(why) && why@ == "halted manually from the dashboard"@,
        final(risk).realised_pnl == old(risk).realised_pnl,
        final(risk).entries_today == old(risk).entries_today,
        final(risk).consecutive_losses == old(risk).consecutive_losses,
        final(risk).session_date == old(risk).session_date,
{
    risk.halt_manually();
    HaltReply { ok: true, halted: true }
}

/// Answer to a resume.
#[derive(Debug, Clone, Copy, PartialEq, Eq, Structural)]
pub struct ResumeReply {
    pub ok: bool,
    pub halted: bool,
    pub realised_pnl: Decimal,
    pub consecutive_losses: usize,
}

/// Clears a halt, and only that.
pub fn resume(risk: &mut RiskState) -> (r: ResumeReply)
    ensures
        r == (ResumeReply {
            ok: true,
            halted: false,
            realised_pnl: old(risk).realised_pnl,
            consecutive_losses: old(risk).consecutive_losses,
        }),
        final(risk).halted_reason is None,
        final(risk).realised_pnl == old(risk).realised_pnl,
        final(risk).entries_today == old(risk).entries_today,
        final(risk).consecutive_losses == old(risk).consecutive_losses,
        final(risk).session_date == old(risk).session_date,
{
    risk.resume();
    ResumeReply {
        ok: true,
        halted: false,
        realised_pnl: risk.realised_pnl,
        consecutive_losses: risk.consecutive_losses,
    }
}

/// As many decisions are returned as were asked for, within one and five hundred,
/// and fifty when nothing was asked.
pub proof fn limits_are_held(q: HistoryQuery, n: i64)
    requires
        call_ensures(HistoryQuery::effective_limit, (&q,), n),
    ensures
        1 <= n <= 500,
        q.limit is None ==> n == 50,
        q.limit matches Some(l) ==> (1 <= l <= 500 ==> n == l) && (l < 1 ==> n == 1) && (l > 500
            ==> n == 500),
{
}

/// Validation leads to storing and storing to applying; a failure of either is
/// answered at once, as the asker's fault or as the server's, in the words of the
/// failure.
pub proof fn changes_go_step_by_step(
    outcome: Result<(), String>,
    checked: ConfigStep,
    saved: ConfigStep,
)
    requires
        call_ensures(after_validation, (outcome,), checked),
        call_ensures(after_save, (outcome,), saved),
    ensures
        outcome is Ok <==> checked is Save,
        outcome is Ok <==> saved is Apply,
        outcome matches Err(e) ==> checked == (ConfigStep::Refuse { status: 400, message: e }),
        outcome matches Err(e) ==> saved == (ConfigStep::Refuse { status: 500, message: e }),
{
}

/// Applying a configuration puts it in place whole, and reports a toggle exactly
/// when the engine was off and is on or was on and is off.
pub proof fn applied_configurations_replace(new: StrategyConfig, toggled: bool, reply: ConfigReply)
    requires
        call_ensures(config_reply, (&new,), reply),
    ensures
        forall|running: &mut StrategyConfig| #[trigger]
            call_ensures(apply_config, (running, new), toggled) ==> {
                &&& *final(running) == new
                &&& toggled <==> (*running).enabled != final(running).enabled
            },
        reply.ok,
        reply.enabled == new.enabled,
{
}

/// Halting and resuming answer with what they did, and change nothing but the
/// halt.
pub proof fn halts_are_answered(h: HaltReply, r: ResumeReply)
    ensures
        forall|s: &mut RiskState| #[trigger]
            call_ensures(halt, (s,), h) ==> {
                &&& h.ok && h.halted
                &&& final(s).halted_reason is Some
                &&& final(s).realised_pnl == (*s).realised_pnl
                &&& final(s).entries_today == (*s).entries_today
                &&& final(s).consecutive_losses == (*s).consecutive_losses
                &&& final(s).session_date == (*s).session_date
            },
        forall|s: &mut RiskState| #[trigger]
            call_ensures(resume, (s,), r) ==> {
                &&& r.ok && !r.halted
                &&& r.realised_pnl == (*s).realised_pnl
                &&& r.consecutive_losses == (*s).consecutive_losses
                &&& final(s).halted_reason is None
                &&& final(s).realised_pnl == (*s).realised_pnl
                &&& final(s).entries_today == (*s).entries_today
                &&& final(s).consecutive_losses == (*s).consecutive_losses
                &&& final(s).session_date == (*s).session_date
            },
{
}

} // verus!
