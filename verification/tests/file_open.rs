use ip_blocker::file_open::{file_open, my_bpf_d_path, try_file_open, MountType, Path, MOUNT_TYPE_LEN, PATH_LEN};

fn buffer(text: &str) -> (Path, i64) {
    let mut p = Path { path: [0u8; PATH_LEN] };
    p.path[..text.len()].copy_from_slice(text.as_bytes());
    // the helper counts the terminating NUL
    (p, text.len() as i64 + 1)
}

#[test]
fn d_path_result() {
    assert_eq!(my_bpf_d_path(-22), Err(-22));
    assert_eq!(my_bpf_d_path(0), Ok(0));
    assert_eq!(my_bpf_d_path(17), Ok(17));
}

#[test]
fn home_and_mkdir_are_refused() {
    for text in ["home/user/notes.txt", "home/", "/usr/bin/mkdir", "/usr/bin/mkdirx"] {
        let (p, n) = buffer(text);
        assert_eq!(try_file_open(Some(&p), n), Err(-1), "{}", text);
        assert_eq!(file_open(Some(&p), n), -1);
    }
}

#[test]
fn other_paths_are_allowed() {
    for text in ["/home/user", "/etc/passwd", "hom", "/usr/bin/mkdi", "/usr/bin/ls", ""] {
        let (p, n) = buffer(text);
        assert_eq!(try_file_open(Some(&p), n), Ok(0), "{}", text);
        assert_eq!(file_open(Some(&p), n), 0);
    }
}

#[test]
fn only_the_written_length_counts() {
    let (p, _) = buffer("home/x");
    // the helper reported 4 bytes: "home" without the slash
    assert_eq!(try_file_open(Some(&p), 4), Ok(0));
    assert_eq!(try_file_open(Some(&p), 5), Err(-1));
}

#[test]
fn errors() {
    let (p, _) = buffer("home/x");
    assert_eq!(try_file_open(None, 7), Err(0));
    assert_eq!(try_file_open(Some(&p), -13), Err(-13));
    assert_eq!(file_open(Some(&p), -13), -13);
    assert_eq!(try_file_open(Some(&p), PATH_LEN as i64), Err(0));
    assert_eq!(try_file_open(Some(&p), 511), Err(-1));
    let (q, _) = buffer("/etc/x");
    assert_eq!(try_file_open(Some(&q), 511), Ok(0));
    assert_eq!(file_open(None, 7), 0);
}

#[test]
fn buffers() {
    let m = MountType { mount_type: [0u8; MOUNT_TYPE_LEN] };
    assert_eq!(m.mount_type.len(), 5);
    let p = Path { path: [1u8; PATH_LEN] };
    assert_eq!(p.path.len(), 512);
}
