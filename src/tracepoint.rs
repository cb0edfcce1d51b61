use vstd::prelude::*;
use vstd::utf8::{decode_utf8, valid_utf8};
use vstd::slice::{slice_subrange, slice_to_vec};

verus! {

/// Size of the buffer that holds the command path, its NUL included.
pub const COMMAND_LEN: usize = 64;

/// Size of the buffer that holds one argument, its NUL included.
pub const ARGV_LEN: usize = 32;

/// Number of arguments captured after `argv[0]`.
pub const ARGV_OFFSET: usize = 4;

/// What the `sys_enter_execve` tracepoint exposes of a call: the path, the
/// argument vector up to its NULL terminator, and the caller's identity.
pub struct ExecveContext {
    pub filename: Vec<u8>,
    pub argv: Vec<Vec<u8>>,
    pub tgid: u32,
    pub pid: u32,
    pub gid: u32,
    pub uid: u32,
}

/// One `execve` as the tracer records it: the path and up to `ARGV_OFFSET`
/// arguments in fixed buffers, with the length copied into each.
pub struct CommandInfo {
    pub command_len: usize,
    pub argvs_offset: Vec<usize>,
    pub command: Vec<u8>,
    pub argvs: Vec<Vec<u8>>,
    pub tgid: u32,
    pub pid: u32,
    pub gid: u32,
    pub uid: u32,
}

impl CommandInfo {
    /// Buffers of their fixed sizes, lengths within them.
    pub open spec fn wf(&self) -> bool {
        &&& self.command@.len() == COMMAND_LEN
        &&& self.command_len <= COMMAND_LEN
        &&& self.argvs_offset@.len() == ARGV_OFFSET
        &&& self.argvs@.len() == ARGV_OFFSET
        &&& forall|i: int|
            0 <= i < ARGV_OFFSET ==> #[trigger] self.argvs@[i]@.len() == ARGV_LEN
                && self.argvs_offset@[i] <= ARGV_LEN
    }
}

/// Length of a C string: the bytes before the first NUL.
pub open spec fn c_strlen(s: Seq<u8>) -> nat
    decreases s.len(),
{
    if s.len() == 0 || s[0] == 0 {
        0
    } else {
        1 + c_strlen(s.drop_first())
    }
}

/// Bytes that a bounded string copy into a buffer of `cap` bytes keeps:
/// the string, cut to leave room for the NUL.
pub open spec fn copied_len(s: Seq<u8>, cap: nat) -> nat {
    if c_strlen(s) < cap {
        c_strlen(s)
    } else {
        (cap - 1) as nat
    }
}

/// A zeroed buffer of `cap` bytes holding the first `n` bytes of `s`.
pub open spec fn padded(s: Seq<u8>, n: nat, cap: nat) -> Seq<u8> {
    Seq::new(cap, |i: int| if i < n { s[i] } else { 0u8 })
}

/// Length recorded for captured argument `i`: `argv[i + 1]` is copied while
/// the vector has not ended.
pub open spec fn arg_len(argv: Seq<Seq<u8>>, i: int) -> nat {
    if i + 1 < argv.len() {
        let n = copied_len(argv[i + 1], ARGV_LEN as nat);
        if n >= ARGV_LEN {
            ARGV_LEN as nat
        } else {
            n
        }
    } else {
        0
    }
}

/// Buffer of captured argument `i`.
pub open spec fn arg_row(argv: Seq<Seq<u8>>, i: int) -> Seq<u8> {
    if i + 1 < argv.len() {
        padded(argv[i + 1], copied_len(argv[i + 1], ARGV_LEN as nat), ARGV_LEN as nat)
    } else {
        padded(Seq::<u8>::empty(), 0, ARGV_LEN as nat)
    }
}

/// The argument vector's bytes.
pub open spec fn argv_view(argv: Seq<Vec<u8>>) -> Seq<Seq<u8>> {
    argv.map_values(|a: Vec<u8>| a@)
}

/// Bounded copy of a C string into a zeroed buffer of `cap` bytes; returns
/// the buffer and the number of bytes copied before the NUL.
fn copy_str_bytes(src: &Vec<u8>, cap: usize) -> (r: (Vec<u8>, usize))
    requires
        cap >= 1,
    ensures
        r.1 == copied_len(src@, cap as nat),
        r.0@ == padded(src@, r.1 as nat, cap as nat),
{
    let mut n: usize = 0;
    while n + 1 < cap && n < src.len() && src[n] != 0
        invariant
            n < cap,
            n <= src@.len(),
            forall|i: int| 0 <= i < n ==> src@[i] != 0,
        decreases cap - n,
    {
        n = n + 1;
    }
    proof {
        lemma_c_strlen_at(src@, n as int);
    }
    let mut buf: Vec<u8> = Vec::new();
    let mut k: usize = 0;
    while k < cap
        invariant
            n < cap,
            n <= src@.len(),
            k <= cap,
            buf@.len() == k,
            forall|i: int| 0 <= i < k ==> buf@[i] == (if i < n { src@[i] } else { 0u8 }),
        decreases cap - k,
    {
        if k < n {
            buf.push(src[k]);
        } else {
            buf.push(0u8);
        }
        k = k + 1;
    }
    assert(buf@ =~= padded(src@, n as nat, cap as nat));
    (buf, n)
}

proof fn lemma_c_strlen_bound(s: Seq<u8>)
    ensures
        c_strlen(s) <= s.len(),
        forall|i: int| 0 <= i < c_strlen(s) ==> s[i] != 0,
        c_strlen(s) < s.len() ==> s[c_strlen(s) as int] == 0,
    decreases s.len(),
{
    if s.len() > 0 && s[0] != 0 {
        lemma_c_strlen_bound(s.drop_first());
        assert forall|i: int| 0 <= i < c_strlen(s) implies s[i] != 0 by {
            if i > 0 {
                assert(s[i] == s.drop_first()[i - 1]);
            }
        }
    }
}

proof fn lemma_c_strlen_at(s: Seq<u8>, n: int)
    requires
        0 <= n <= s.len(),
        forall|i: int| 0 <= i < n ==> s[i] != 0,
    ensures
        (n == s.len() || s[n] == 0) ==> c_strlen(s) == n,
        c_strlen(s) >= n,
    decreases n,
{
    if n > 0 {
        assert forall|i: int| 0 <= i < n - 1 implies s.drop_first()[i] != 0 by {
            assert(s.drop_first()[i] == s[i + 1]);
        }
        lemma_c_strlen_at(s.drop_first(), n - 1);
    } else {
        lemma_c_strlen_bound(s);
    }
}

/// The tracepoint's work on one `execve`: the path and `argv[1..=ARGV_OFFSET]`
/// (up to the vector's end) are copied into fixed, zeroed buffers, each cut
/// to leave room for its NUL; `argv[0]` is skipped. The record's size is the
/// same for every call.
pub fn ebpf_tracepoint(ctx: &ExecveContext) -> (r: CommandInfo)
    ensures
        r.wf(),
        r.command_len == copied_len(ctx.filename@, COMMAND_LEN as nat),
        r.command@ == padded(ctx.filename@, r.command_len as nat, COMMAND_LEN as nat),
        forall|i: int|
            0 <= i < ARGV_OFFSET ==> #[trigger] r.argvs_offset@[i] == arg_len(
                argv_view(ctx.argv@),
                i,
            ) && r.argvs@[i]@ == arg_row(argv_view(ctx.argv@), i),
        r.tgid == ctx.tgid,
        r.pid == ctx.pid,
        r.gid == ctx.gid,
        r.uid == ctx.uid,
{
    let (command, command_len) = copy_str_bytes(&ctx.filename, COMMAND_LEN);
    let mut argvs_offset: Vec<usize> = Vec::new();
    let mut argvs: Vec<Vec<u8>> = Vec::new();
    let empty: Vec<u8> = Vec::new();
    let ghost av = argv_view(ctx.argv@);
    let mut i: usize = 0;
    while i < ARGV_OFFSET
        invariant
            i <= ARGV_OFFSET,
            av == argv_view(ctx.argv@),
            empty@ == Seq::<u8>::empty(),
            argvs_offset@.len() == i,
            argvs@.len() == i,
            forall|j: int|
                0 <= j < i ==> #[trigger] argvs_offset@[j] == arg_len(av, j) && argvs@[j]@
                    == arg_row(av, j),
        decreases ARGV_OFFSET - i,
    {
        if i + 1 < ctx.argv.len() {
            let (row, n) = copy_str_bytes(&ctx.argv[i + 1], ARGV_LEN);
            assert(av[i + 1] == ctx.argv@[i + 1]@);
            let len = if n >= ARGV_LEN {
                ARGV_LEN
            } else {
                n
            };
            argvs_offset.push(len);
            argvs.push(row);
            assert(argvs@[i as int]@ == arg_row(av, i as int));
            assert(argvs_offset@[i as int] == arg_len(av, i as int));
        } else {
            let (row, _) = copy_str_bytes(&empty, ARGV_LEN);
            proof {
                lemma_c_strlen_bound(empty@);
                assert(c_strlen(empty@) == 0);
                assert(row@ =~= arg_row(av, i as int));
            }
            argvs_offset.push(0);
            argvs.push(row);
        }
        assert(argvs_offset@[i as int] == arg_len(av, i as int));
        i = i + 1;
    }
    proof {
        lemma_c_strlen_bound(ctx.filename@);
        assert forall|j: int| 0 <= j < ARGV_OFFSET implies #[trigger] argvs@[j]@.len() == ARGV_LEN
            && argvs_offset@[j] <= ARGV_LEN by {
            assert(argvs_offset@[j] == arg_len(av, j));
        }
    }
    CommandInfo {
        command_len,
        argvs_offset,
        command,
        argvs,
        tgid: ctx.tgid,
        pid: ctx.pid,
        gid: ctx.gid,
        uid: ctx.uid,
    }
}


/// Size of a `CommandInfo` record in the ring, laid out as C lays it out on
/// a 64-bit little-endian machine.
pub const COMMAND_INFO_LEN: usize = 248;

/// Offset of the argument lengths in a record.
pub const ARGVS_OFFSET_AT: usize = 8;

/// Offset of the command buffer in a record.
pub const COMMAND_AT: usize = 40;

/// Offset of the argument buffers in a record.
pub const ARGVS_AT: usize = 104;

/// Offset of the identity fields (tgid, pid, gid, uid) in a record.
pub const IDS_AT: usize = 232;

/// Little-endian value of four bytes from `at`.
pub open spec fn le32(b: Seq<u8>, at: int) -> int {
    b[at] as int + b[at + 1] as int * 0x100 + b[at + 2] as int * 0x10000 + b[at + 3] as int
        * 0x1000000
}

/// Little-endian value of eight bytes from `at`.
pub open spec fn le64(b: Seq<u8>, at: int) -> int {
    le32(b, at) + le32(b, at + 4) * 0x100000000
}

/// Whether the bytes hold a record whose lengths fit its buffers.
pub open spec fn record_ok(b: Seq<u8>) -> bool {
    &&& b.len() >= COMMAND_INFO_LEN
    &&& le64(b, 0) <= COMMAND_LEN
    &&& forall|i: int| 0 <= i < ARGV_OFFSET ==> #[trigger] le64(b, ARGVS_OFFSET_AT + 8 * i) <= ARGV_LEN
}

fn read_u32_le(b: &[u8], at: usize) -> (r: u32)
    requires
        at + 4 <= b.len(),
    ensures
        r == le32(b@, at as int),
{
    (b[at] as u32) + (b[at + 1] as u32) * 0x100 + (b[at + 2] as u32) * 0x10000 + (b[at + 3] as u32)
        * 0x1000000
}

fn read_u64_le(b: &[u8], at: usize) -> (r: u64)
    requires
        at + 8 <= b.len(),
    ensures
        r == le64(b@, at as int),
{
    let lo = read_u32_le(b, at) as u64;
    let hi = read_u32_le(b, at + 4) as u64;
    assert(hi * 0x100000000 <= 0xffff_ffff_0000_0000) by (nonlinear_arith)
        requires
            hi <= 0xffff_ffff,
    ;
    lo + hi * 0x100000000
}

impl CommandInfo {
    /// Reads a record from the start of a ring slot; `None` where the slot
    /// is shorter than a record or a length exceeds its buffer.
    pub fn from_bytes(buf: &[u8]) -> (r: Option<CommandInfo>)
        ensures
            r is Some <==> record_ok(buf@),
            r matches Some(info) ==> {
                &&& info.wf()
                &&& info.command_len == le64(buf@, 0)
                &&& info.command@ == buf@.subrange(COMMAND_AT as int, COMMAND_AT + COMMAND_LEN)
                &&& forall|i: int|
                    0 <= i < ARGV_OFFSET ==> #[trigger] info.argvs_offset@[i] == le64(
                        buf@,
                        ARGVS_OFFSET_AT + 8 * i,
                    ) && info.argvs@[i]@ == buf@.subrange(
                        ARGVS_AT + ARGV_LEN * i,
                        ARGVS_AT + ARGV_LEN * (i + 1),
                    )
                &&& info.tgid == le32(buf@, IDS_AT as int)
                &&& info.pid == le32(buf@, IDS_AT + 4)
                &&& info.gid == le32(buf@, IDS_AT + 8)
                &&& info.uid == le32(buf@, IDS_AT + 12)
            },
    {
        if buf.len() < COMMAND_INFO_LEN {
            return None;
        }
        let command_len = read_u64_le(buf, 0);
        if command_len > COMMAND_LEN as u64 {
            return None;
        }
        let mut argvs_offset: Vec<usize> = Vec::new();
        let mut argvs: Vec<Vec<u8>> = Vec::new();
        let mut i: usize = 0;
        while i < ARGV_OFFSET
            invariant
                buf@.len() >= COMMAND_INFO_LEN,
                i <= ARGV_OFFSET,
                argvs_offset@.len() == i,
                argvs@.len() == i,
                forall|j: int|
                    0 <= j < i ==> #[trigger] argvs_offset@[j] == le64(buf@, ARGVS_OFFSET_AT + 8 * j)
                        && argvs_offset@[j] <= ARGV_LEN && argvs@[j]@ == buf@.subrange(
                        ARGVS_AT + ARGV_LEN * j,
                        ARGVS_AT + ARGV_LEN * (j + 1),
                    ),
            decreases ARGV_OFFSET - i,
        {
            let len = read_u64_le(buf, ARGVS_OFFSET_AT + 8 * i);
            if len > ARGV_LEN as u64 {
                assert(!record_ok(buf@)) by {
                    assert(le64(buf@, ARGVS_OFFSET_AT + 8 * (i as int)) > ARGV_LEN);
                }
                return None;
            }
            let row = slice_to_vec(
                slice_subrange(buf, ARGVS_AT + ARGV_LEN * i, ARGVS_AT + ARGV_LEN * (i + 1)),
            );
            argvs_offset.push(len as usize);
            argvs.push(row);
            assert(argvs_offset@[i as int] == le64(buf@, ARGVS_OFFSET_AT + 8 * (i as int)));
            i = i + 1;
        }
        let command = slice_to_vec(slice_subrange(buf, COMMAND_AT, COMMAND_AT + COMMAND_LEN));
        let info = CommandInfo {
            command_len: command_len as usize,
            argvs_offset,
            command,
            argvs,
            tgid: read_u32_le(buf, IDS_AT),
            pid: read_u32_le(buf, IDS_AT + 4),
            gid: read_u32_le(buf, IDS_AT + 8),
            uid: read_u32_le(buf, IDS_AT + 12),
        };
        assert(info.wf()) by {
            assert forall|j: int| 0 <= j < ARGV_OFFSET implies #[trigger] info.argvs@[j]@.len()
                == ARGV_LEN && info.argvs_offset@[j] <= ARGV_LEN by {
                assert(info.argvs_offset@[j] == le64(buf@, ARGVS_OFFSET_AT + 8 * j));
            }
        }
        assert(record_ok(buf@)) by {
            assert forall|j: int| 0 <= j < ARGV_OFFSET implies #[trigger] le64(
                buf@,
                ARGVS_OFFSET_AT + 8 * j,
            ) <= ARGV_LEN by {
                assert(info.argvs_offset@[j] == le64(buf@, ARGVS_OFFSET_AT + 8 * j));
            }
        }
        Some(info)
    }
}

/// What `String::from_utf8_lossy` makes of a byte string.
pub uninterp spec fn lossy_text(b: Seq<u8>) -> Seq<char>;

/// What `str::trim_end` leaves of a string.
pub uninterp spec fn trimmed_end(s: Seq<char>) -> Seq<char>;

/// Relies on `String::from_utf8_lossy`: its result depends on the bytes
/// alone, and valid UTF-8 is decoded as it stands.
#[verifier::external_body]
fn utf8_lossy(b: &[u8]) -> (r: String)
    ensures
        r@ == lossy_text(b@),
        valid_utf8(b@) ==> r@ == decode_utf8(b@),
{
    String::from_utf8_lossy(b).into_owned()
}

/// Relies on `str::trim_end`: its result depends on the string alone and is
/// a prefix of it.
#[verifier::external_body]
fn trim_end(s: &str) -> (r: String)
    ensures
        r@ == trimmed_end(s@),
        r@ == s@.subrange(0, r@.len() as int),
{
    s.trim_end().to_string()
}

/// The arguments, each followed by one space.
pub open spec fn joined_args(parts: Seq<Seq<char>>) -> Seq<char>
    decreases parts.len(),
{
    if parts.len() == 0 {
        Seq::<char>::empty()
    } else {
        joined_args(parts.drop_last()) + parts.last() + seq![' ']
    }
}

/// Number of arguments in a record from index `i` on: they end at the first
/// empty one.
pub open spec fn arg_count_from(offsets: Seq<usize>, i: int) -> int
    decreases ARGV_OFFSET - i,
{
    if i < 0 || i >= ARGV_OFFSET || i >= offsets.len() || offsets[i] == 0 {
        i
    } else {
        arg_count_from(offsets, i + 1)
    }
}

/// The record's arguments as text.
pub open spec fn arg_texts(info: CommandInfo) -> Seq<Seq<char>> {
    Seq::new(
        arg_count_from(info.argvs_offset@, 0) as nat,
        |i: int| lossy_text(info.argvs@[i]@.subrange(0, info.argvs_offset@[i] as int)),
    )
}

/// The arguments joined, each followed by one space.
pub fn args_text(parts: &Vec<String>) -> (r: String)
    ensures
        r@ == joined_args(parts@.map_values(|s: String| s@)),
{
    let mut r = String::new();
    let mut i: usize = 0;
    let ghost f = |s: String| s@;
    while i < parts.len()
        invariant
            i <= parts@.len(),
            f == (|s: String| s@),
            r@ == joined_args(parts@.subrange(0, i as int).map_values(f)),
        decreases parts@.len() - i,
    {
        r.append(parts[i].as_str());
        r.append(" ");
        proof {
            reveal_strlit(" ");
            let p = parts@.subrange(0, i + 1).map_values(f);
            assert(p.drop_last() =~= parts@.subrange(0, i as int).map_values(f));
            assert(" "@ =~= seq![' ']);
        }
        i = i + 1;
    }
    assert(parts@.subrange(0, parts@.len() as int) =~= parts@);
    r
}

/// An `execve` as the drain posts it to the control plane.
pub struct CommandExecutionRequestForm {
    pub command: String,
    pub args: String,
    pub tgid: u32,
    pub pid: u32,
    pub gid: u32,
    pub uid: u32,
}

impl CommandExecutionRequestForm {
    /// The form for a record: the command and each argument as UTF-8-lossy
    /// text, the arguments up to the first empty one joined by spaces, with
    /// trailing whitespace trimmed.
    pub fn from_info(info: &CommandInfo) -> (r: CommandExecutionRequestForm)
        requires
            info.wf(),
        ensures
            r.command@ == lossy_text(info.command@.subrange(0, info.command_len as int)),
            r.args@ == trimmed_end(joined_args(arg_texts(*info))),
            r.tgid == info.tgid,
            r.pid == info.pid,
            r.gid == info.gid,
            r.uid == info.uid,
    {
        let command = utf8_lossy(slice_subrange(info.command.as_slice(), 0, info.command_len));
        let mut parts: Vec<String> = Vec::new();
        let mut i: usize = 0;
        let mut done = false;
        while i < ARGV_OFFSET && !done
            invariant
                info.wf(),
                i <= ARGV_OFFSET,
                done ==> i < ARGV_OFFSET && info.argvs_offset@[i as int] == 0,
                arg_count_from(info.argvs_offset@, 0) == arg_count_from(info.argvs_offset@, i as int),
                parts@.len() == i,
                forall|j: int|
                    0 <= j < i ==> #[trigger] parts@[j]@ == lossy_text(
                        info.argvs@[j]@.subrange(0, info.argvs_offset@[j] as int),
                    ),
            decreases ARGV_OFFSET - i + (if done { 0int } else { 1int }),
        {
            let len = info.argvs_offset[i];
            if len == 0 {
                done = true;
            } else {
                let text = utf8_lossy(slice_subrange(info.argvs[i].as_slice(), 0, len));
                parts.push(text);
                i = i + 1;
            }
        }
        let joined = args_text(&parts);
        assert(parts@.map_values(|s: String| s@) =~= arg_texts(*info));
        let args = trim_end(joined.as_str());
        CommandExecutionRequestForm {
            command,
            args,
            tgid: info.tgid,
            pid: info.pid,
            gid: info.gid,
            uid: info.uid,
        }
    }
}

/// The argument lengths of a record.
pub open spec fn record_offsets(b: Seq<u8>) -> Seq<usize> {
    Seq::new(ARGV_OFFSET as nat, |i: int| le64(b, ARGVS_OFFSET_AT + 8 * i) as usize)
}

/// The arguments of a record as text, up to the first empty one.
pub open spec fn record_arg_texts(b: Seq<u8>) -> Seq<Seq<char>> {
    Seq::new(
        arg_count_from(record_offsets(b), 0) as nat,
        |i: int|
            lossy_text(
                b.subrange(
                    ARGVS_AT + ARGV_LEN * i,
                    ARGVS_AT + ARGV_LEN * i + record_offsets(b)[i] as int,
                ),
            ),
    )
}

/// The drain's work on one ring slot: the form to post, `None` where the
/// slot does not hold a well-formed record.
pub fn decode_command_info(buf: &[u8]) -> (r: Option<CommandExecutionRequestForm>)
    ensures
        r is Some <==> record_ok(buf@),
        r matches Some(form) ==> {
            &&& form.command@ == lossy_text(
                buf@.subrange(COMMAND_AT as int, COMMAND_AT + le64(buf@, 0)),
            )
            &&& form.args@ == trimmed_end(joined_args(record_arg_texts(buf@)))
            &&& form.tgid == le32(buf@, IDS_AT as int)
            &&& form.pid == le32(buf@, IDS_AT + 4)
            &&& form.gid == le32(buf@, IDS_AT + 8)
            &&& form.uid == le32(buf@, IDS_AT + 12)
        },
{
    match CommandInfo::from_bytes(buf) {
        Some(info) => {
            let form = CommandExecutionRequestForm::from_info(&info);
            proof {
                assert(info.argvs_offset@ =~= record_offsets(buf@));
                lemma_arg_count_bound(record_offsets(buf@), 0);
                assert(arg_texts(info).len() == record_arg_texts(buf@).len());
                assert(info.command@.subrange(0, info.command_len as int) =~= buf@.subrange(
                    COMMAND_AT as int,
                    COMMAND_AT + le64(buf@, 0),
                ));
                assert forall|i: int| 0 <= i < arg_count_from(record_offsets(buf@), 0) implies #[trigger] arg_texts(info)[i]
                    == record_arg_texts(buf@)[i] by {
                    lemma_arg_count_bound(record_offsets(buf@), 0);
                    assert(info.argvs@[i]@.subrange(0, info.argvs_offset@[i] as int) =~= buf@.subrange(
                        ARGVS_AT + ARGV_LEN * i,
                        ARGVS_AT + ARGV_LEN * i + record_offsets(buf@)[i] as int,
                    ));
                }
                assert(arg_texts(info) =~= record_arg_texts(buf@));
            }
            Some(form)
        },
        None => None,
    }
}

proof fn lemma_arg_count_bound(offsets: Seq<usize>, i: int)
    requires
        0 <= i,
    ensures
        arg_count_from(offsets, i) <= ARGV_OFFSET || arg_count_from(offsets, i) == i,
        arg_count_from(offsets, i) >= i,
    decreases ARGV_OFFSET - i,
{
    if i >= 0 && i < ARGV_OFFSET && i < offsets.len() && offsets[i] != 0 {
        lemma_arg_count_bound(offsets, i + 1);
    }
}

/// Where the control plane listens, as `scheme://host:port`.
#[derive(Clone, Debug)]
pub struct ApiServerConfig {
    pub base_url: String,
}

/// The tracer daemon's configuration.
#[derive(Clone, Debug)]
pub struct AppConfig {
    pub api_server: ApiServerConfig,
}

/// Path of the endpoint that takes one execution.
pub const COMMAND_EXECUTION_LOG_PATH: &'static str = "/command-execution/log";

/// URL that takes one execution, under the control plane's base URL.
pub fn command_log_url(base_url: &String) -> (r: String)
    ensures
        r@ == base_url@ + COMMAND_EXECUTION_LOG_PATH@,
{
    let mut r = base_url.clone();
    r.append(COMMAND_EXECUTION_LOG_PATH);
    r
}

} // verus!
