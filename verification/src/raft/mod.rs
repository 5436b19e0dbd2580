pub mod append_laws;
pub mod backfill_laws;
pub mod broadcast;
pub mod candidate;
pub mod election_laws;
pub mod executor;
pub mod follower;
pub mod laws;
pub mod leader;
pub mod limits;
pub mod log_laws;
pub mod raft_sm;
pub mod shared_state;
pub mod state_machine_worker;
pub mod step_laws;
pub mod votes;
pub mod write_laws;
