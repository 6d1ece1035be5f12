//! The time a round of exchanges is given: a deadline that a round still gathering replies may
//! extend, and that a stalled one does not.

use crate::arith::{clamp_u64, larger, max_u64, times};
use crate::daemon::HEARTBEAT_NS;
use crate::fleet::probe::{POLL_PER_PERIOD, SUSPICION_PERIODS};
use crate::text::{decimal, push_decimal};
use vstd::prelude::*;
use vstd::string::StringExecFns;

verus! {

/// Raft's election margin: the periods of the floor election timeout, and the most extensions a
/// progressing round is granted.
pub const ELECTION_MARGIN: u32 = 10;

/// The numerator of the share of a deadline at which an extension is first considered.
pub const CONSENSUS_LOOKAHEAD_NUMERATOR: u64 = 3;

/// The denominator of that share: the last quarter.
pub const CONSENSUS_LOOKAHEAD_DENOMINATOR: u64 = 4;

/// The time a round is given.
#[derive(Clone, Copy, Debug, PartialEq, Eq, Structural)]
pub struct RoundBudget {
    /// The base deadline.
    pub deadline_ns: u64,
    /// The park between polls.
    pub poll_ns: u64,
    /// The share of the deadline at which an extension is considered.
    pub lookahead_numerator: u64,
    pub lookahead_denominator: u64,
    /// What one extension adds.
    pub extension_ns: u64,
    /// The extensions a progressing round may be granted.
    pub extensions: u32,
    /// How long without a new reply makes a round stalled.
    pub stall_ns: u64,
}

impl RoundBudget {
    /// The longest a round may run: the deadline and every extension.
    pub open spec fn span(self) -> u64 {
        clamp_u64(self.deadline_ns + clamp_u64(self.extension_ns * self.extensions))
    }

    /// The longest a round may run.
    pub fn max_deadline_ns(&self) -> (span_ns: u64)
        ensures
            span_ns == self.span(),
    {
        self.deadline_ns.saturating_add(times(self.extension_ns, self.extensions as u64))
    }
}

/// The poll interval of every collection loop.
pub fn poll_ns() -> (poll_ns: u64)
    ensures
        poll_ns == HEARTBEAT_NS / POLL_PER_PERIOD,
        poll_ns > 0,
{
    HEARTBEAT_NS / POLL_PER_PERIOD
}

/// The budget of a round over the slowest measured path.
pub open spec fn budget_over(slowest_tail_ns: Option<u64>) -> RoundBudget {
    let tail = match slowest_tail_ns {
        Some(tail) => tail as int,
        None => 0,
    };
    RoundBudget {
        deadline_ns: larger(HEARTBEAT_NS as int, tail) as u64,
        poll_ns: HEARTBEAT_NS / POLL_PER_PERIOD,
        lookahead_numerator: CONSENSUS_LOOKAHEAD_NUMERATOR,
        lookahead_denominator: CONSENSUS_LOOKAHEAD_DENOMINATOR,
        extension_ns: HEARTBEAT_NS,
        extensions: ELECTION_MARGIN,
        stall_ns: larger(HEARTBEAT_NS * SUSPICION_PERIODS, tail) as u64,
    }
}

/// The budget of one period's commits, promotions, replications, elections and fetches: a round is
/// given a period, or the slowest peer's round trip when that is longer; one period more at a time,
/// up to the election margin, while replies still come in; and it is stalled after the suspicion
/// span, or that round trip, without one.
pub fn consensus_budget(slowest_tail_ns: Option<u64>) -> (budget: RoundBudget)
    ensures
        budget == budget_over(slowest_tail_ns),
{
    let tail: u64 = match slowest_tail_ns {
        Some(tail) => tail,
        None => 0,
    };
    RoundBudget {
        deadline_ns: max_u64(HEARTBEAT_NS, tail),
        poll_ns: poll_ns(),
        lookahead_numerator: CONSENSUS_LOOKAHEAD_NUMERATOR,
        lookahead_denominator: CONSENSUS_LOOKAHEAD_DENOMINATOR,
        extension_ns: HEARTBEAT_NS,
        extensions: ELECTION_MARGIN,
        stall_ns: max_u64(HEARTBEAT_NS * (SUSPICION_PERIODS as u64), tail),
    }
}

/// A round outlasts the farthest peer's round trip, whichever it is, and is never judged stalled
/// before that round trip is over.
pub proof fn a_round_outlasts_the_slowest_path(slowest_tail_ns: u64)
    ensures
        budget_over(Some(slowest_tail_ns)).deadline_ns >= slowest_tail_ns,
        budget_over(Some(slowest_tail_ns)).stall_ns >= slowest_tail_ns,
        budget_over(Some(slowest_tail_ns)).deadline_ns >= budget_over(None).deadline_ns,
        budget_over(Some(slowest_tail_ns)).stall_ns >= budget_over(None).stall_ns,
{
}

/// The boot line of the fleet's derived timing, as text.
pub open spec fn timing_text(base_periods: u32, span_periods: u32, round: RoundBudget) -> Seq<
    char,
> {
    "slates-server: fleet timing: election timeout = "@ + decimal(ELECTION_MARGIN as nat)
        + " × max(broadcast RTT tail over the voters, heartbeat "@ + decimal(HEARTBEAT_NS as nat)
        + " ns) = "@ + decimal(base_periods as nat)
        + " periods at the floor (span the same over the tail's spread: "@ + decimal(
        span_periods as nat,
    ) + " periods); round budget base = max(heartbeat, tail) = "@ + decimal(
        round.deadline_ns as nat,
    ) + " ns, stall = max("@ + decimal(SUSPICION_PERIODS as nat) + " periods, tail) = "@
        + decimal((HEARTBEAT_NS * SUSPICION_PERIODS) as nat) + " ns, extensions "@ + decimal(
        ELECTION_MARGIN as nat,
    ) + " × "@ + decimal(HEARTBEAT_NS as nat) + " ns; no path measured yet"@
}

/// The boot line of the fleet's derived timing: every derived value with its inputs, at the floor,
/// since nothing is measured yet.
pub fn timing_line(base_periods: u32, span_periods: u32) -> (line: String)
    ensures
        line@ == timing_text(base_periods, span_periods, budget_over(None)),
{
    let round = consensus_budget(None);
    let mut line = String::new();
    line.append("slates-server: fleet timing: election timeout = ");
    push_decimal(&mut line, ELECTION_MARGIN as u64);
    line.append(" × max(broadcast RTT tail over the voters, heartbeat ");
    push_decimal(&mut line, HEARTBEAT_NS);
    line.append(" ns) = ");
    push_decimal(&mut line, base_periods as u64);
    line.append(" periods at the floor (span the same over the tail's spread: ");
    push_decimal(&mut line, span_periods as u64);
    line.append(" periods); round budget base = max(heartbeat, tail) = ");
    push_decimal(&mut line, round.deadline_ns);
    line.append(" ns, stall = max(");
    push_decimal(&mut line, SUSPICION_PERIODS as u64);
    line.append(" periods, tail) = ");
    push_decimal(&mut line, HEARTBEAT_NS * (SUSPICION_PERIODS as u64));
    line.append(" ns, extensions ");
    push_decimal(&mut line, ELECTION_MARGIN as u64);
    line.append(" × ");
    push_decimal(&mut line, HEARTBEAT_NS);
    line.append(" ns; no path measured yet");
    assert(line@ =~= timing_text(base_periods, span_periods, round));
    line
}

/// A round's base deadline and its stall are a heartbeat and two, or the slowest path where that is
/// slower; it is polled ten times a heartbeat, looks three quarters ahead, and is extended ten times by
/// a heartbeat.
pub proof fn a_round_is_paced_by_the_heartbeat(slowest_tail_ns: Option<u64>)
    ensures
        ({
            let budget = budget_over(slowest_tail_ns);
            &&& slowest_tail_ns is None || slowest_tail_ns->0 <= 100_000_000 ==> budget.deadline_ns
                == 100_000_000
            &&& slowest_tail_ns is Some && slowest_tail_ns->0 > 100_000_000 ==> budget.deadline_ns
                == slowest_tail_ns->0
            &&& slowest_tail_ns is None || slowest_tail_ns->0 <= 200_000_000 ==> budget.stall_ns
                == 200_000_000
            &&& slowest_tail_ns is Some && slowest_tail_ns->0 > 200_000_000 ==> budget.stall_ns
                == slowest_tail_ns->0
            &&& budget.poll_ns * 10 == 100_000_000
            &&& budget.extension_ns * budget.extensions == 1_000_000_000
            &&& budget.extensions == 10
            &&& budget.lookahead_numerator * 4 == budget.lookahead_denominator * 3
            &&& budget.lookahead_denominator == 4
        }),
{
}

/// A budget spans its deadline and all its extensions, as far as a count can hold.
pub proof fn a_budget_spans_its_extensions(budget: RoundBudget)
    ensures
        budget.deadline_ns + budget.extension_ns * budget.extensions <= u64::MAX ==> budget.span()
            == budget.deadline_ns + budget.extension_ns * budget.extensions,
        budget.deadline_ns + budget.extension_ns * budget.extensions > u64::MAX ==> budget.span()
            == u64::MAX,
{
    assert(budget.extension_ns * budget.extensions >= 0) by (nonlinear_arith);
}

} // verus!
