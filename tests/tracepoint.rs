use ebpf_guard::tracepoint::{
    args_text, decode_command_info, ebpf_tracepoint, CommandExecutionRequestForm, CommandInfo,
    ExecveContext, ARGV_LEN, ARGV_OFFSET, COMMAND_INFO_LEN, COMMAND_LEN,
};

fn ctx(filename: &[u8], argv: &[&[u8]]) -> ExecveContext {
    ExecveContext {
        filename: filename.to_vec(),
        argv: argv.iter().map(|a| a.to_vec()).collect(),
        tgid: 100,
        pid: 101,
        gid: 1000,
        uid: 1001,
    }
}

fn record_bytes(command: &[u8], args: &[&[u8]], ids: [u32; 4]) -> Vec<u8> {
    let mut b = Vec::new();
    b.extend_from_slice(&(command.len() as u64).to_le_bytes());
    for i in 0..ARGV_OFFSET {
        let n = args.get(i).map_or(0, |a| a.len());
        b.extend_from_slice(&(n as u64).to_le_bytes());
    }
    let mut cmd = [0u8; COMMAND_LEN];
    cmd[..command.len()].copy_from_slice(command);
    b.extend_from_slice(&cmd);
    for i in 0..ARGV_OFFSET {
        let mut row = [0u8; ARGV_LEN];
        if let Some(a) = args.get(i) {
            row[..a.len()].copy_from_slice(a);
        }
        b.extend_from_slice(&row);
    }
    for id in ids {
        b.extend_from_slice(&id.to_le_bytes());
    }
    b
}

#[test]
fn ls_posts_command_and_args() {
    let info = ebpf_tracepoint(&ctx(b"/bin/ls", &[b"ls", b"-l", b"/tmp"]));
    assert_eq!(info.command_len, 7);
    assert_eq!(info.argvs_offset, vec![2, 4, 0, 0]);
    let form = CommandExecutionRequestForm::from_info(&info);
    assert_eq!(form.command, "/bin/ls");
    assert_eq!(form.args, "-l /tmp");
    assert_eq!((form.tgid, form.pid, form.gid, form.uid), (100, 101, 1000, 1001));
}

#[test]
fn buffers_have_fixed_sizes() {
    let info = ebpf_tracepoint(&ctx(b"/bin/true", &[]));
    assert_eq!(info.command.len(), COMMAND_LEN);
    assert_eq!(info.argvs.len(), ARGV_OFFSET);
    assert!(info.argvs.iter().all(|r| r.len() == ARGV_LEN));
    assert_eq!(info.argvs_offset, vec![0; ARGV_OFFSET]);
    assert_eq!(&info.command[..9], b"/bin/true");
    assert!(info.command[9..].iter().all(|b| *b == 0));
    assert_eq!(CommandExecutionRequestForm::from_info(&info).args, "");
}

#[test]
fn long_strings_are_cut_before_the_nul() {
    let path = vec![b'p'; 100];
    let arg = vec![b'a'; 40];
    let info = ebpf_tracepoint(&ctx(&path, &[b"x", &arg]));
    assert_eq!(info.command_len, COMMAND_LEN - 1);
    assert_eq!(info.command[COMMAND_LEN - 1], 0);
    assert_eq!(info.argvs_offset[0], ARGV_LEN - 1);
    assert_eq!(info.argvs[0][ARGV_LEN - 1], 0);
}

#[test]
fn only_four_arguments_after_argv0() {
    let info = ebpf_tracepoint(&ctx(b"/bin/echo", &[b"echo", b"a", b"b", b"c", b"d", b"e", b"f"]));
    assert_eq!(info.argvs_offset, vec![1, 1, 1, 1]);
    assert_eq!(CommandExecutionRequestForm::from_info(&info).args, "a b c d");
}

#[test]
fn strings_end_at_their_nul() {
    let info = ebpf_tracepoint(&ctx(b"/bin/sh\0junk", &[b"sh", b"-c\0x"]));
    assert_eq!(info.command_len, 7);
    assert_eq!(info.argvs_offset[0], 2);
    assert_eq!(info.argvs[0][2], 0);
}

#[test]
fn empty_argument_ends_the_list() {
    let info = ebpf_tracepoint(&ctx(b"/bin/x", &[b"x", b"a", b"", b"c"]));
    assert_eq!(CommandExecutionRequestForm::from_info(&info).args, "a");
}

#[test]
fn trailing_whitespace_of_last_argument_is_trimmed() {
    let info = ebpf_tracepoint(&ctx(b"/bin/x", &[b"x", b"a b ", b"c\t"]));
    assert_eq!(CommandExecutionRequestForm::from_info(&info).args, "a b  c");
}

#[test]
fn invalid_utf8_is_replaced() {
    let info = ebpf_tracepoint(&ctx(b"/bin/\xff", &[b"x", b"\xfe1"]));
    let form = CommandExecutionRequestForm::from_info(&info);
    assert_eq!(form.command, "/bin/\u{FFFD}");
    assert_eq!(form.args, "\u{FFFD}1");
}

#[test]
fn args_are_joined_with_trailing_spaces() {
    assert_eq!(args_text(&vec!["-l".to_string(), "/tmp".to_string()]), "-l /tmp ");
    assert_eq!(args_text(&Vec::new()), "");
}

#[test]
fn ring_record_is_decoded() {
    let b = record_bytes(b"/usr/bin/docker", &[b"ps", b"-a"], [7, 8, 9, 10]);
    assert_eq!(b.len(), COMMAND_INFO_LEN);
    let info = CommandInfo::from_bytes(&b).unwrap();
    assert_eq!(info.command_len, 15);
    assert_eq!((info.tgid, info.pid, info.gid, info.uid), (7, 8, 9, 10));
    let form = decode_command_info(&b).unwrap();
    assert_eq!(form.command, "/usr/bin/docker");
    assert_eq!(form.args, "ps -a");
    assert_eq!(form.uid, 10);
}

#[test]
fn malformed_records_are_refused() {
    let b = record_bytes(b"/bin/ls", &[], [0; 4]);
    assert!(decode_command_info(&b[..COMMAND_INFO_LEN - 1]).is_none());
    let mut long = b.clone();
    long[0] = 65;
    assert!(CommandInfo::from_bytes(&long).is_none());
    let mut arg = b.clone();
    arg[8] = 33;
    assert!(CommandInfo::from_bytes(&arg).is_none());
    arg[8] = 32;
    assert!(CommandInfo::from_bytes(&arg).is_some());
}
