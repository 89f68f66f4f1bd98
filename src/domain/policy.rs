use vstd::prelude::*;
use vstd::string::*;

use super::event::{event_type_text, EventType};

verus! {

/// How notifications are rate-limited.
#[derive(Clone, Copy, Debug)]
pub struct CooldownPolicy {
    /// Zero disables the cooldown.
    pub cooldown_seconds: u64,
    pub scope: CooldownScope,
}

/// What a cooldown is keyed by.
#[derive(Clone, Copy, Debug, PartialEq, Eq, Structural)]
pub enum CooldownScope {
    /// The watch target alone.
    ByTarget,
    /// The watch target and the event type.
    ByTargetAndType,
}

/// The cooldown key of a change of type `t` on target `target_id`.
pub open spec fn scope_key_text(scope: CooldownScope, target_id: Seq<char>, t: EventType) -> Seq<char> {
    match scope {
        CooldownScope::ByTarget => target_id,
        CooldownScope::ByTargetAndType => target_id + "|"@ + event_type_text(t),
    }
}

impl CooldownScope {
    /// The cooldown key of a change of type `t` on target `target_id`
    /// (`T1|GitHubRelease` when keyed by target and type).
    pub fn scope_key(&self, target_id: &str, t: &EventType) -> (r: String)
        ensures
            r@ == scope_key_text(*self, target_id@, *t),
    {
        let mut out = String::from_str(target_id);
        match self {
            CooldownScope::ByTarget => {},
            CooldownScope::ByTargetAndType => {
                out.append("|");
                out.append(t.name());
            },
        }
        out
    }
}

} // verus!
