use std::sync::Arc;

use kraft_lib::persistence::worker::{
    DiskAction, PersistenceConfig, PersistenceEvent, PersistenceResponseType, PersistenceTaskType,
    PersistenceWorker, VoteRow, BATCH_SIZE,
};

/// Carries out the actions of a worker in memory.
struct Disk {
    log: Vec<u8>,
    buffer: Vec<u8>,
    votes: Vec<VoteRow>,
    responses: Vec<PersistenceResponseType>,
}

impl Disk {
    fn new(log: Vec<u8>) -> Disk {
        Disk { log, buffer: vec![], votes: vec![], responses: vec![] }
    }

    fn perform(&mut self, worker: &mut PersistenceWorker) {
        for action in worker.take_actions() {
            match action {
                DiskAction::WriteLog(data) => self.buffer.extend_from_slice(&data),
                DiskAction::FlushLog => self.log.append(&mut self.buffer),
                DiskAction::SetLogLength(length) => self.log.truncate(length as usize),
                DiskAction::WriteVote(row) => self.votes.push(row),
                DiskAction::Respond(response) => self.responses.push(response),
            }
        }
    }
}

fn create_test_worker(entry_end_offsets: Vec<u64>) -> PersistenceWorker {
    PersistenceWorker::new(PersistenceConfig { out_dir: "out/".to_string() }, entry_end_offsets)
}

fn append(id: u64, byte: u8, len: usize) -> PersistenceTaskType {
    PersistenceTaskType::AppendLog { id, data: Arc::new(vec![byte; len]), request_id: id }
}

fn run(worker: &mut PersistenceWorker, disk: &mut Disk, tasks: Vec<PersistenceTaskType>) {
    for task in tasks {
        assert!(worker.accepts(&task));
        assert!(worker.handle_event(PersistenceEvent::Task(task)));
        disk.perform(worker);
    }
    assert!(!worker.handle_event(PersistenceEvent::Disconnected));
    disk.perform(worker);
}

#[test]
fn test_append_log_tracks_offsets() {
    let mut worker = create_test_worker(vec![]);
    let mut disk = Disk::new(vec![]);
    run(&mut worker, &mut disk, vec![append(1, 1, 100), append(2, 2, 200), append(3, 3, 50)]);

    // Verify offsets
    assert_eq!(worker.entry_end_offsets, vec![100, 300, 350]);

    // Verify responses were sent
    assert_eq!(disk.responses.len(), 3);

    // Verify file size
    assert_eq!(disk.log.len(), 350);
}

#[test]
fn test_truncate_log_shortens_file_and_offsets() {
    let mut worker = create_test_worker(vec![]);
    let mut disk = Disk::new(vec![]);
    run(
        &mut worker,
        &mut disk,
        vec![
            append(1, 1, 100),
            append(2, 2, 200),
            append(3, 3, 50),
            PersistenceTaskType::TruncateLog { target_length: 2 },
        ],
    );

    // Verify offsets truncated
    assert_eq!(worker.entry_end_offsets, vec![100, 300]);

    // Verify file was truncated
    assert_eq!(disk.log.len(), 300);
}

#[test]
fn test_truncate_log_to_zero() {
    let mut worker = create_test_worker(vec![]);
    let mut disk = Disk::new(vec![]);
    run(
        &mut worker,
        &mut disk,
        vec![
            append(1, 1, 100),
            append(2, 2, 200),
            PersistenceTaskType::TruncateLog { target_length: 0 },
        ],
    );
    assert!(worker.entry_end_offsets.is_empty());
    assert_eq!(disk.log.len(), 0);
}

#[test]
fn test_truncate_then_append() {
    let mut worker = create_test_worker(vec![]);
    let mut disk = Disk::new(vec![]);
    run(
        &mut worker,
        &mut disk,
        vec![
            append(1, 1, 100),
            append(2, 2, 200),
            append(3, 3, 50),
            PersistenceTaskType::TruncateLog { target_length: 1 },
            append(4, 4, 75),
        ],
    );

    // After truncate to 1 (offset 100), then append 75 bytes
    assert_eq!(worker.entry_end_offsets, vec![100, 175]);
    assert_eq!(disk.log.len(), 175);
    assert_eq!(disk.log[99], 1);
    assert_eq!(disk.log[100], 4);
}

#[test]
fn test_worker_with_initial_offsets() {
    // A log file with some data is there already
    let mut disk = Disk::new(vec![0u8; 500]);
    let mut worker = create_test_worker(vec![100, 300, 500]);
    run(
        &mut worker,
        &mut disk,
        vec![PersistenceTaskType::TruncateLog { target_length: 2 }],
    );
    assert_eq!(worker.entry_end_offsets, vec![100, 300]);
    assert_eq!(disk.log.len(), 300);
}

#[test]
fn entries_are_flushed_in_batches_and_reported_after_that() {
    let mut worker = create_test_worker(vec![]);
    let mut disk = Disk::new(vec![]);
    for id in 0..BATCH_SIZE as u64 - 1 {
        worker.handle_event(PersistenceEvent::Task(append(id, 1, 10)));
        disk.perform(&mut worker);
    }
    assert!(disk.responses.is_empty());
    assert!(disk.log.is_empty());
    worker.handle_event(PersistenceEvent::Task(append(31, 1, 10)));
    disk.perform(&mut worker);
    assert_eq!(disk.responses.len(), 32);
    assert_eq!(disk.log.len(), 320);
    assert_eq!(disk.responses[31], PersistenceResponseType::LogPersisted { id: 31 });
}

#[test]
fn vote_has_the_log_flushed_first() {
    let mut worker = create_test_worker(vec![]);
    let mut disk = Disk::new(vec![]);
    worker.handle_event(PersistenceEvent::Task(append(1, 1, 10)));
    worker.handle_event(PersistenceEvent::Task(PersistenceTaskType::AppendVote {
        id: 2,
        term: 7,
        candidate_id: 3,
    }));
    disk.perform(&mut worker);
    assert_eq!(disk.votes, vec![VoteRow { term: 7, candidate_id: 3 }]);
    assert_eq!(
        disk.responses,
        vec![
            PersistenceResponseType::LogPersisted { id: 1 },
            PersistenceResponseType::VotePersisted { id: 2, term: 7, candidate_id: 3 },
        ]
    );
    assert_eq!(disk.log.len(), 10);
}

#[test]
fn idle_worker_flushes() {
    let mut worker = create_test_worker(vec![]);
    let mut disk = Disk::new(vec![]);
    worker.handle_event(PersistenceEvent::Task(append(1, 1, 10)));
    assert!(worker.handle_event(PersistenceEvent::Drained));
    disk.perform(&mut worker);
    assert_eq!(disk.log.len(), 10);
    assert!(worker.handle_event(PersistenceEvent::Timeout));
    assert!(worker.take_actions().is_empty());
}

#[test]
fn cuts_beyond_the_log_are_not_accepted() {
    let mut worker = create_test_worker(vec![]);
    assert!(!worker.accepts(&PersistenceTaskType::TruncateLog { target_length: 1 }));
    worker.set_entry_end_offsets(vec![u64::MAX]);
    assert!(worker.accepts(&PersistenceTaskType::TruncateLog { target_length: 1 }));
    assert!(!worker.accepts(&append(1, 1, 1)));
    assert!(worker.accepts(&append(1, 1, 0)));
}

#[test]
fn paths_of_the_files() {
    let config = PersistenceConfig { out_dir: "/data/".to_string() };
    assert_eq!(config.log_path(), "/data/log.capnp");
    assert_eq!(config.votes_path(), "/data/votes.csv");
}
