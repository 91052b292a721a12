// Scenario tests: an in-memory stand-in for the real open/read/close
// primitives plays the operating system, and the interposer decides, exactly
// as the surrounding layer would drive it, which descriptors are shadowed
// and what bytes a read yields.

use shadowfile::table::Interposer;

struct FakeFs {
    // Path and content of every file that "exists".
    files: Vec<(String, Vec<u8>)>,
    // Open descriptors: descriptor, index into `files`, read position.
    open_fds: Vec<(i32, usize, usize)>,
    next_fd: i32,
}

impl FakeFs {
    fn new() -> FakeFs {
        FakeFs { files: Vec::new(), open_fds: Vec::new(), next_fd: 3 }
    }

    fn with_file(mut self, path: &str, content: &str) -> FakeFs {
        self.files.push((String::from(path), content.as_bytes().to_vec()));
        self
    }

    fn real_open(&mut self, path: &str, _flags: i32) -> i32 {
        for (idx, (name, _)) in self.files.iter().enumerate() {
            if name == path {
                let fd = self.next_fd;
                self.next_fd += 1;
                self.open_fds.push((fd, idx, 0));
                return fd;
            }
        }
        -1
    }

    fn real_read(&mut self, fd: i32, count: usize) -> Vec<u8> {
        for entry in self.open_fds.iter_mut() {
            if entry.0 == fd {
                let content = &self.files[entry.1].1;
                let remaining = content.len() - entry.2;
                let n = count.min(remaining);
                let bytes = content[entry.2..entry.2 + n].to_vec();
                entry.2 += n;
                return bytes;
            }
        }
        panic!("read on a descriptor that is not open");
    }

    fn real_close(&mut self, fd: i32) -> i32 {
        for (idx, entry) in self.open_fds.iter().enumerate() {
            if entry.0 == fd {
                self.open_fds.remove(idx);
                return 0;
            }
        }
        -1
    }
}

// The control flow of the interposed entry points: forward to the real
// primitive, then let the library decide what to record or serve.

fn sim_open(fs: &mut FakeFs, ip: &mut Interposer, path: &str, flags: i32) -> i32 {
    let fd = fs.real_open(path, flags);
    ip.on_open(path.as_bytes(), flags, fd);
    fd
}

fn sim_read(fs: &mut FakeFs, ip: &mut Interposer, fd: i32, count: usize) -> Vec<u8> {
    match ip.on_read(fd, count) {
        Some(bytes) => bytes,
        None => fs.real_read(fd, count),
    }
}

fn sim_close(fs: &mut FakeFs, ip: &mut Interposer, fd: i32) -> i32 {
    let status = fs.real_close(fd);
    ip.on_close(fd, status);
    status
}

fn read_all(fs: &mut FakeFs, ip: &mut Interposer, fd: i32) -> Vec<u8> {
    let mut out: Vec<u8> = Vec::new();
    loop {
        let chunk = sim_read(fs, ip, fd, 64);
        if chunk.is_empty() {
            return out;
        }
        out.extend_from_slice(&chunk);
    }
}

fn test_fs() -> FakeFs {
    FakeFs::new()
        .with_file("resources/test/test.txt", "I'm a test file\n")
        .with_file("resources/test/secret.txt", "Nothing to see here.\n")
}

fn assert_file_content(filename: &str, open_mode: i32, expected_content: &str, is_secret: bool) {
    let mut fs = test_fs();
    let mut ip = Interposer::new();
    let path = format!("resources/test/{}", filename);
    let fd = sim_open(&mut fs, &mut ip, &path, open_mode);
    assert!(fd >= 0, "Failed to open file");
    if is_secret {
        assert!(ip.is_shadowed(fd), "Expected fd to be in the dictionary");
    } else {
        assert!(!ip.is_shadowed(fd), "Expected fd not be in the dictionary");
    }
    let contents = String::from_utf8(read_all(&mut fs, &mut ip, fd)).unwrap();
    assert_eq!(contents.trim(), expected_content);
    sim_close(&mut fs, &mut ip, fd);
}

#[test]
fn open_normal_file() {
    assert_file_content("test.txt", libc::O_RDONLY, "I'm a test file", false);
}

#[test]
fn open_secret_file() {
    assert_file_content("secret.txt", libc::O_RDONLY, "Secret!", true);
}

#[test]
fn open_secret_file_in_write_mode() {
    assert_file_content("secret.txt", libc::O_RDWR, "Nothing to see here.", false);
}

#[test]
fn open_non_existent_file() {
    let mut fs = test_fs();
    let mut ip = Interposer::new();
    let fd = sim_open(&mut fs, &mut ip, "/non/existent/secret.txt", libc::O_RDONLY);
    assert!(fd < 0, "Expected open to fail");
    assert_eq!(ip.shadow_count(), 0);
}

#[test]
fn close_secret_file() {
    let mut fs = test_fs();
    let mut ip = Interposer::new();
    let fd = sim_open(&mut fs, &mut ip, "resources/test/secret.txt", libc::O_RDONLY);
    assert!(fd > 0, "Expected open to success");
    assert!(ip.is_shadowed(fd), "Expected fd to be in the dictionary");
    let result = sim_close(&mut fs, &mut ip, fd);
    assert_eq!(result, 0, "Expected close to return 0");
    assert!(!ip.is_shadowed(fd), "Expected fd to be removed from the dictionary");
}

#[test]
fn secret_read_in_one_call() {
    let mut fs = test_fs();
    let mut ip = Interposer::new();
    let fd = sim_open(&mut fs, &mut ip, "resources/test/secret.txt", libc::O_RDONLY);
    assert!(fd >= 0);
    let first = sim_read(&mut fs, &mut ip, fd, 100);
    assert_eq!(first, b"Secret!".to_vec());
    assert_eq!(first.len(), 7);
    let second = sim_read(&mut fs, &mut ip, fd, 100);
    assert_eq!(second.len(), 0);
    sim_close(&mut fs, &mut ip, fd);
}

#[test]
fn secret_read_split_in_two_calls() {
    let mut fs = test_fs();
    let mut ip = Interposer::new();
    let fd = sim_open(&mut fs, &mut ip, "resources/test/secret.txt", libc::O_RDONLY);
    assert!(fd >= 0);
    assert_eq!(ip.cursor_of(fd), Some(0));
    let first = sim_read(&mut fs, &mut ip, fd, 4);
    assert_eq!(first, b"Secr".to_vec());
    assert_eq!(ip.cursor_of(fd), Some(4));
    let rest = sim_read(&mut fs, &mut ip, fd, 100);
    assert_eq!(rest, b"et!".to_vec());
    assert_eq!(ip.cursor_of(fd), Some(7));
    let after = sim_read(&mut fs, &mut ip, fd, 4);
    assert_eq!(after.len(), 0);
    sim_close(&mut fs, &mut ip, fd);
}

#[test]
fn read_write_mode_sees_real_content() {
    let mut fs = test_fs();
    let mut ip = Interposer::new();
    let fd = sim_open(&mut fs, &mut ip, "resources/test/secret.txt", libc::O_RDWR);
    assert!(fd >= 0);
    assert!(!ip.is_shadowed(fd));
    let content = read_all(&mut fs, &mut ip, fd);
    assert_eq!(content, b"Nothing to see here.\n".to_vec());
    sim_close(&mut fs, &mut ip, fd);
}

#[test]
fn shadow_count_restored_after_matching_closes() {
    let mut fs = FakeFs::new()
        .with_file("a/secret.txt", "one\n")
        .with_file("b/secret.txt", "two\n")
        .with_file("c/secret.txt", "three\n");
    let mut ip = Interposer::new();
    assert_eq!(ip.shadow_count(), 0);
    let fd_a = sim_open(&mut fs, &mut ip, "a/secret.txt", libc::O_RDONLY);
    let fd_b = sim_open(&mut fs, &mut ip, "b/secret.txt", libc::O_RDONLY);
    let fd_c = sim_open(&mut fs, &mut ip, "c/secret.txt", libc::O_RDONLY);
    assert!(fd_a >= 0 && fd_b >= 0 && fd_c >= 0);
    assert_eq!(ip.shadow_count(), 3);
    assert_eq!(sim_close(&mut fs, &mut ip, fd_a), 0);
    assert_eq!(sim_close(&mut fs, &mut ip, fd_b), 0);
    assert_eq!(sim_close(&mut fs, &mut ip, fd_c), 0);
    assert_eq!(ip.shadow_count(), 0);
}

#[test]
fn failed_close_keeps_entry() {
    let mut fs = test_fs();
    let mut ip = Interposer::new();
    let fd = sim_open(&mut fs, &mut ip, "resources/test/secret.txt", libc::O_RDONLY);
    assert!(fd >= 0);
    assert!(ip.is_shadowed(fd));
    // A failed real close (nonzero status) must leave the entry intact.
    ip.on_close(fd, -1);
    assert!(ip.is_shadowed(fd));
    // The retried, successful close removes it.
    assert_eq!(sim_close(&mut fs, &mut ip, fd), 0);
    assert!(!ip.is_shadowed(fd));
}

#[test]
fn closing_unshadowed_descriptor_is_harmless() {
    let mut fs = test_fs();
    let mut ip = Interposer::new();
    let fd = sim_open(&mut fs, &mut ip, "resources/test/test.txt", libc::O_RDONLY);
    assert!(fd >= 0);
    assert!(!ip.is_shadowed(fd));
    assert_eq!(sim_close(&mut fs, &mut ip, fd), 0);
    assert_eq!(ip.shadow_count(), 0);
}
