//! The Linux x86_64 system-call bridge: which call a request makes, what it returns, and the
//! data it hands back (keyboard input, the `utsname` record).
use vstd::prelude::*;
use vstd::string::StringSliceAdditionalSpecFns;
use crate::interrupts::RingBuffer;

verus! {

pub const LINUX_SYS_READ: u64 = 0;
pub const LINUX_SYS_WRITE: u64 = 1;
pub const LINUX_SYS_OPEN: u64 = 2;
pub const LINUX_SYS_CLOSE: u64 = 3;
pub const LINUX_SYS_STAT: u64 = 4;
pub const LINUX_SYS_LSEEK: u64 = 8;
pub const LINUX_SYS_MMAP: u64 = 9;
pub const LINUX_SYS_BRK: u64 = 12;
pub const LINUX_SYS_IOCTL: u64 = 16;
pub const LINUX_SYS_GETPID: u64 = 39;
pub const LINUX_SYS_EXIT: u64 = 60;
pub const LINUX_SYS_UNAME: u64 = 63;
pub const LINUX_SYS_GETCWD: u64 = 79;
pub const LINUX_SYS_EXIT_GROUP: u64 = 231;

/// The bridge between Linux programs and the kernel.
pub struct PosixBridge;

/// What a Linux system call comes to.
#[derive(Clone, Copy, PartialEq, Eq, Structural, Debug)]
pub enum PosixCall {
    /// Return this value at once.
    Done(i64),
    /// Copy up to this many keyboard bytes into the user buffer; return how many.
    ReadStdin(usize),
    /// Log the first `shown` bytes of the user buffer (if UTF-8); return `ret`.
    WriteConsole { shown: usize, ret: i64 },
    /// Allocate this many zeroed bytes aligned to a page; return the address (-12 if none).
    Mmap(usize),
    /// Fill the `utsname` record in the user buffer; return 0.
    Uname,
    /// The process ends; return 0.
    Exit,
    /// Not implemented: log it and return -38 (ENOSYS).
    Unimplemented,
}

/// The call that `sys_num` with arguments `arg1`..`arg3` makes. File descriptors are the
/// low 32 bits of `arg1`; reads come only from stdin (0) and writes go only to stdout (1)
/// and stderr (2), other descriptors give -9 (EBADF); a null buffer or an empty count gives 0.
pub open spec fn posix_call(sys_num: u64, arg1: u64, arg2: u64, arg3: u64) -> PosixCall {
    let fd = arg1 as i32;
    if sys_num == LINUX_SYS_READ {
        if arg2 == 0 || arg3 == 0 {
            PosixCall::Done(0)
        } else if fd == 0 {
            PosixCall::ReadStdin(arg3 as usize)
        } else {
            PosixCall::Done(-9i64)
        }
    } else if sys_num == LINUX_SYS_WRITE {
        if arg2 == 0 || arg3 == 0 {
            PosixCall::Done(0)
        } else if fd == 1 || fd == 2 {
            PosixCall::WriteConsole {
                shown: if arg3 > 4096 {
                    4096
                } else {
                    arg3 as usize
                },
                ret: arg3 as usize as i64,
            }
        } else {
            PosixCall::Done(-9i64)
        }
    } else if sys_num == LINUX_SYS_OPEN {
        PosixCall::Done(if arg1 == 0 {
            -14i64
        } else {
            3
        })
    } else if sys_num == LINUX_SYS_CLOSE {
        PosixCall::Done(0)
    } else if sys_num == LINUX_SYS_GETPID {
        PosixCall::Done(1001)
    } else if sys_num == LINUX_SYS_BRK {
        PosixCall::Done(if arg1 == 0 {
            0x4000_0000
        } else {
            arg1 as usize as i64
        })
    } else if sys_num == LINUX_SYS_MMAP {
        PosixCall::Mmap(if arg2 > 4096 {
            arg2 as usize
        } else {
            4096
        })
    } else if sys_num == LINUX_SYS_UNAME {
        if arg1 == 0 {
            PosixCall::Done(0)
        } else {
            PosixCall::Uname
        }
    } else if sys_num == LINUX_SYS_EXIT || sys_num == LINUX_SYS_EXIT_GROUP {
        PosixCall::Exit
    } else {
        PosixCall::Unimplemented
    }
}

/// The five `utsname` fields with their terminating NUL and their offsets (65 bytes apart).
pub open spec fn uname_field(k: int) -> (int, Seq<u8>) {
    if k == 0 {
        (0, "AtulyaOS-LinuxABI\0".spec_bytes())
    } else if k == 1 {
        (65, "axon-quantum\0".spec_bytes())
    } else if k == 2 {
        (130, "6.8.0-atulya\0".spec_bytes())
    } else if k == 3 {
        (195, "#1 SMP Sovereign Rust\0".spec_bytes())
    } else {
        (260, "x86_64\0".spec_bytes())
    }
}

/// `buf` with `s` written from offset `off`.
pub open spec fn written_at(buf: Seq<u8>, off: int, s: Seq<u8>) -> Seq<u8> {
    buf.subrange(0, off) + s + buf.subrange(off + s.len(), buf.len() as int)
}

/// `buf` with the five `utsname` fields written.
pub open spec fn uname_record(buf: Seq<u8>) -> Seq<u8> {
    written_at(
        written_at(
            written_at(
                written_at(written_at(buf, uname_field(0).0, uname_field(0).1), uname_field(1).0, uname_field(1).1),
                uname_field(2).0,
                uname_field(2).1,
            ),
            uname_field(3).0,
            uname_field(3).1,
        ),
        uname_field(4).0,
        uname_field(4).1,
    )
}

fn copy_at(buf: &mut Vec<u8>, off: usize, s: &[u8])
    requires
        off + s@.len() <= old(buf)@.len(),
    ensures
        final(buf)@ == written_at(old(buf)@, off as int, s@),
{
    let ghost b0 = buf@;
    let n = buf.len();
    assert(b0.len() == n);
    let mut i: usize = 0;
    while i < s.len()
        invariant
            off + s@.len() <= b0.len() <= usize::MAX,
            i <= s@.len(),
            buf@.len() == b0.len(),
            forall|k: int| 0 <= k < off ==> #[trigger] buf@[k] == b0[k],
            forall|k: int| 0 <= k < i ==> #[trigger] buf@[off + k] == s@[k],
            forall|k: int| off + i <= k < b0.len() ==> #[trigger] buf@[k] == b0[k],
        decreases s@.len() - i,
    {
        buf.set(off + i, s[i]);
        i += 1;
    }
    assert forall|k: int| off <= k < off + s@.len() implies buf@[k] == s@[k - off] by {
        assert(buf@[off + (k - off)] == s@[k - off]);
    }
    assert(buf@ =~= written_at(b0, off as int, s@));
}

impl PosixBridge {
    /// Decides a Linux system call.
    pub fn dispatch(sys_num: u64, arg1: u64, arg2: u64, arg3: u64) -> (c: PosixCall)
        ensures
            c == posix_call(sys_num, arg1, arg2, arg3),
    {
        let fd = arg1 as i32;
        if sys_num == LINUX_SYS_READ {
            if arg2 == 0 || arg3 == 0 {
                PosixCall::Done(0)
            } else if fd == 0 {
                PosixCall::ReadStdin(arg3 as usize)
            } else {
                PosixCall::Done(-9)
            }
        } else if sys_num == LINUX_SYS_WRITE {
            if arg2 == 0 || arg3 == 0 {
                PosixCall::Done(0)
            } else if fd == 1 || fd == 2 {
                PosixCall::WriteConsole {
                    shown: if arg3 > 4096 {
                        4096
                    } else {
                        arg3 as usize
                    },
                    ret: arg3 as usize as i64,
                }
            } else {
                PosixCall::Done(-9)
            }
        } else if sys_num == LINUX_SYS_OPEN {
            PosixCall::Done(if arg1 == 0 {
                -14
            } else {
                3
            })
        } else if sys_num == LINUX_SYS_CLOSE {
            PosixCall::Done(0)
        } else if sys_num == LINUX_SYS_GETPID {
            PosixCall::Done(1001)
        } else if sys_num == LINUX_SYS_BRK {
            PosixCall::Done(if arg1 == 0 {
                0x4000_0000
            } else {
                arg1 as usize as i64
            })
        } else if sys_num == LINUX_SYS_MMAP {
            PosixCall::Mmap(if arg2 > 4096 {
                arg2 as usize
            } else {
                4096
            })
        } else if sys_num == LINUX_SYS_UNAME {
            if arg1 == 0 {
                PosixCall::Done(0)
            } else {
                PosixCall::Uname
            }
        } else if sys_num == LINUX_SYS_EXIT || sys_num == LINUX_SYS_EXIT_GROUP {
            PosixCall::Exit
        } else {
            PosixCall::Unimplemented
        }
    }

    /// Takes up to `count` keyboard bytes, oldest first, for a read from stdin.
    pub fn read_stdin(queue: &mut RingBuffer<u8, 256>, count: usize) -> (r: Vec<u8>)
        requires
            old(queue).wf(),
        ensures
            final(queue).wf(),
            r@.len() == (if count < old(queue)@.len() {
                count as int
            } else {
                old(queue)@.len() as int
            }),
            r@ == old(queue)@.subrange(0, r@.len() as int),
            final(queue)@ == old(queue)@.subrange(r@.len() as int, old(queue)@.len() as int),
    {
        let ghost q0 = queue@;
        let mut r: Vec<u8> = Vec::new();
        while r.len() < count
            invariant_except_break
                queue.wf(),
                r@.len() <= count,
                r@.len() <= q0.len(),
                r@ == q0.subrange(0, r@.len() as int),
                queue@ == q0.subrange(r@.len() as int, q0.len() as int),
            ensures
                queue.wf(),
                r@ == q0.subrange(0, r@.len() as int),
                queue@ == q0.subrange(r@.len() as int, q0.len() as int),
                r@.len() == (if count < q0.len() {
                    count as int
                } else {
                    q0.len() as int
                }),
            decreases count - r@.len(),
        {
            match queue.pop() {
                Some(ch) => {
                    r.push(ch);
                    assert(r@ =~= q0.subrange(0, r@.len() as int));
                    assert(queue@ =~= q0.subrange(r@.len() as int, q0.len() as int));
                },
                None => {
                    break;
                },
            }
        }
        r
    }

    /// Writes the `utsname` fields into a user buffer of at least 267 bytes.
    pub fn write_uname(buf: &mut Vec<u8>)
        requires
            old(buf)@.len() >= 267,
        ensures
            final(buf)@ == uname_record(old(buf)@),
    {
        proof {
            reveal_strlit("AtulyaOS-LinuxABI\0");
            reveal_strlit("axon-quantum\0");
            reveal_strlit("6.8.0-atulya\0");
            reveal_strlit("#1 SMP Sovereign Rust\0");
            reveal_strlit("x86_64\0");
            broadcast use vstd::string::is_ascii_spec_bytes;
            assert(vstd::string::is_ascii("AtulyaOS-LinuxABI\0"));
            assert(vstd::string::is_ascii("axon-quantum\0"));
            assert(vstd::string::is_ascii("6.8.0-atulya\0"));
            assert(vstd::string::is_ascii("#1 SMP Sovereign Rust\0"));
            assert(vstd::string::is_ascii("x86_64\0"));
        }
        copy_at(buf, 0, "AtulyaOS-LinuxABI\0".as_bytes());
        copy_at(buf, 65, "axon-quantum\0".as_bytes());
        copy_at(buf, 130, "6.8.0-atulya\0".as_bytes());
        copy_at(buf, 195, "#1 SMP Sovereign Rust\0".as_bytes());
        copy_at(buf, 260, "x86_64\0".as_bytes());
    }
}

} // verus!
