use hytch::session_log::{FileOp, FileReply, Rotation, SessionLog};

/// A file in memory.
struct MemFile {
    content: Vec<u8>,
    cursor: usize,
}

impl MemFile {
    fn new(content: &[u8]) -> Self {
        MemFile {
            content: content.to_vec(),
            cursor: content.len(),
        }
    }

    fn perform(&mut self, op: &FileOp) -> FileReply {
        match op {
            FileOp::SeekEnd => {
                self.cursor = self.content.len();
                FileReply::Position(self.cursor as u64)
            }
            FileOp::SeekTo(n) => {
                self.cursor = *n as usize;
                FileReply::Position(*n)
            }
            FileOp::Read(n) => {
                let end = (self.cursor + *n as usize).min(self.content.len());
                let bytes = self.content[self.cursor..end].to_vec();
                self.cursor = end;
                FileReply::Content(bytes)
            }
            FileOp::SetLen(n) => {
                self.content.resize(*n as usize, 0);
                FileReply::Done
            }
            FileOp::Write(bytes) => {
                let end = self.cursor + bytes.len();
                if self.content.len() < end {
                    self.content.resize(end, 0);
                }
                self.content[self.cursor..end].copy_from_slice(bytes);
                self.cursor = end;
                FileReply::Done
            }
            FileOp::Size => FileReply::Position(self.content.len() as u64),
            FileOp::Finished => panic!("nothing to perform"),
        }
    }

    fn write_all(&mut self, bytes: &[u8]) {
        self.perform(&FileOp::Write(bytes.to_vec()));
    }
}

fn rotate_log_file(file: &mut MemFile, max_size: u64) {
    let (mut rotation, mut op) = Rotation::new(max_size);
    while op != FileOp::Finished {
        let reply = file.perform(&op);
        op = rotation.step(reply);
    }
}

/// A log together with its file.
struct Log {
    file: MemFile,
    log: SessionLog,
}

impl Log {
    fn open(content: &[u8], max_size: u64) -> Self {
        let (log, op) = SessionLog::open(max_size);
        let mut file = MemFile::new(content);
        file.cursor = 0;
        let mut opened = Log { file, log };
        opened.run(op);
        opened
    }

    fn run(&mut self, mut op: FileOp) {
        while op != FileOp::Finished {
            let reply = self.file.perform(&op);
            op = self.log.step(reply);
        }
        assert!(self.log.is_idle());
    }

    fn append(&mut self, data: &[u8]) {
        assert!(self.log.has_room(data.len()));
        let op = self.log.append(data);
        self.run(op);
    }

    fn write_end_marker(&mut self, marker: &str) {
        let op = self.log.write_end_marker(marker);
        self.run(op);
    }
}

#[test]
fn rotate_leaves_undersized_file_untouched() {
    let mut file = MemFile::new(b"short");
    rotate_log_file(&mut file, 100);
    assert_eq!(file.content, b"short");
}

#[test]
fn rotate_leaves_exactly_max_sized_file_untouched() {
    let mut file = MemFile::new(b"1234");
    rotate_log_file(&mut file, 4);
    assert_eq!(file.content, b"1234");
}

#[test]
fn rotate_trims_oversized_file_to_the_tail() {
    let mut file = MemFile::new(b"0123456789");
    rotate_log_file(&mut file, 4);
    assert_eq!(file.content, b"6789");
}

#[test]
fn rotate_leaves_cursor_at_eof_ready_for_append() {
    let mut file = MemFile::new(b"0123456789");
    rotate_log_file(&mut file, 4);
    file.write_all(b"X");
    assert_eq!(file.content, b"6789X");
}

#[test]
fn session_log_append_writes_bytes() {
    let mut log = Log::open(b"", 1024);
    log.append(b"hello ");
    log.append(b"world");
    assert_eq!(log.file.content, b"hello world");
}

#[test]
fn session_log_rotates_automatically_once_cap_is_crossed() {
    let mut log = Log::open(b"", 8);
    log.append(b"01234567");
    assert_eq!(log.file.content, b"01234567");
    log.append(b"89");
    assert_eq!(log.file.content, b"23456789");
}

#[test]
fn session_log_reopen_trims_a_preexisting_oversized_file() {
    let mut log = Log::open(b"0123456789", 4);
    assert_eq!(log.file.content, b"6789");
    log.append(b"X");
    assert_eq!(log.file.content, b"789X");
}

#[test]
fn session_log_write_end_marker_appends_at_current_position() {
    let mut log = Log::open(b"", 1024);
    log.append(b"output");
    log.write_end_marker("[ended]");
    assert_eq!(log.file.content, b"output[ended]");
}

#[test]
fn rotation_is_idempotent() {
    let mut file = MemFile::new(b"0123456789");
    rotate_log_file(&mut file, 4);
    rotate_log_file(&mut file, 4);
    assert_eq!(file.content, b"6789");
    rotate_log_file(&mut file, 0);
    assert_eq!(file.content, b"");
}

#[test]
fn rotation_asks_for_these_operations() {
    let mut file = MemFile::new(b"0123456789");
    let (mut rotation, mut op) = Rotation::new(4);
    let mut ops = Vec::new();
    while op != FileOp::Finished {
        let reply = file.perform(&op);
        ops.push(op);
        op = rotation.step(reply);
    }
    assert_eq!(
        ops,
        vec![
            FileOp::SeekEnd,
            FileOp::SeekTo(6),
            FileOp::Read(4),
            FileOp::SetLen(0),
            FileOp::SeekTo(0),
            FileOp::Write(b"6789".to_vec()),
            FileOp::SeekEnd,
        ]
    );
}

#[test]
fn rotation_keeps_what_a_short_read_gave() {
    let (mut rotation, _) = Rotation::new(4);
    assert_eq!(rotation.step(FileReply::Position(10)), FileOp::SeekTo(6));
    assert_eq!(rotation.step(FileReply::Position(6)), FileOp::Read(4));
    assert_eq!(
        rotation.step(FileReply::Content(b"67".to_vec())),
        FileOp::SetLen(0)
    );
    assert_eq!(rotation.step(FileReply::Done), FileOp::SeekTo(0));
    assert_eq!(
        rotation.step(FileReply::Position(0)),
        FileOp::Write(b"67".to_vec())
    );
}

#[test]
fn log_is_the_tail_of_everything_and_never_exceeds_its_cap() {
    let mut log = Log::open(b"start", 7);
    let mut all = b"start".to_vec();
    for piece in [&b"a"[..], b"bcd", b"", b"efghijklmnop", b"q", b"rstuvwx"] {
        log.append(piece);
        all.extend_from_slice(piece);
        let from = all.len().saturating_sub(7);
        assert_eq!(log.file.content, &all[from..]);
        assert!(log.file.content.len() <= 7);
    }
}

#[test]
fn end_marker_does_not_count() {
    let mut log = Log::open(b"", 8);
    log.append(b"1234567");
    log.write_end_marker("[ended]");
    assert_eq!(log.file.content, b"1234567[ended]");
}

#[test]
fn a_failed_append_leaves_the_log_usable() {
    let mut log = Log::open(b"", 8);
    let _ = log.log.append(b"lost");
    assert!(!log.log.is_idle());
    log.log.abandon();
    assert!(log.log.is_idle());
    log.append(b"kept");
    assert_eq!(log.file.content, b"kept");
}

#[test]
fn a_cap_of_any_size_can_be_counted() {
    let mut log = Log::open(b"start ", u64::MAX);
    log.append(b"and more");
    assert_eq!(log.file.content, b"start and more");
}
