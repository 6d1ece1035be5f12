//! The fleet membership a control shard runs: the failure detector's timing and its indirect
//! probes, who is a member and who is believed dead, the record sessions and what is done over
//! them: commits, promotions, content rounds, takeovers and the councils' rounds.

pub mod budget;
pub mod council;
pub mod membership;
pub mod probe;
pub mod record;
pub mod refusal;
pub mod seal;
pub mod session;
pub mod swim;
