//! Flags, limits, timeouts and queue names.

use vstd::prelude::*;
use vstd::utf8::valid_utf8;
use crate::errno::{EFAULT, EINVAL, ENAMETOOLONG};
use crate::process::table::RT_SIG_MAX;
use crate::text::{copy_range, find_byte, index_or_end, is_utf8, lemma_index_or_end};

verus! {

pub const O_ACCMODE: usize = 0x3;
pub const O_RDONLY: usize = 0x0;
pub const O_WRONLY: usize = 0x1;
pub const O_RDWR: usize = 0x2;
pub const O_CREAT: usize = 0x40;
pub const O_EXCL: usize = 0x80;
pub const O_NONBLOCK: usize = 0x800;
pub const O_CLOEXEC: usize = 0x80000;
pub const FD_CLOEXEC: u32 = 1;

/// The longest queue name, without the leading slash.
pub const MQ_NAME_MAX: usize = 255;
/// The longest queue name, with the leading slash.
pub const MQ_NAME_MAX_WITH_SLASH: usize = MQ_NAME_MAX + 1;
/// Priorities are below this.
pub const MQ_PRIO_MAX: usize = 32768;
pub const MQ_DEFAULT_MAXMSG: usize = 10;
pub const MQ_DEFAULT_MSGSIZE: usize = 8192;
pub const MQ_DEFAULT_QUEUES_MAX: usize = 256;
pub const MQ_HARD_QUEUES_MAX: usize = 65536;
pub const NSEC_PER_SEC: u64 = 1_000_000_000;

/// A point in time, as user memory holds it.
#[derive(Clone, Copy)]
pub struct TimeSpec {
    pub tv_sec: i64,
    pub tv_nsec: i64,
}

/// `n`, capped at the greatest value.
pub open spec fn cap64(n: int) -> u64 {
    if n > u64::MAX {
        u64::MAX
    } else {
        n as u64
    }
}

/// Nanoseconds of a time in seconds and nanoseconds.
pub open spec fn nanoseconds(sec: int, nsec: int) -> u64 {
    cap64(sec * NSEC_PER_SEC + nsec)
}

/// A time that can be meant.
pub open spec fn timespec_ok(ts: TimeSpec) -> bool {
    ts.tv_sec >= 0 && 0 <= ts.tv_nsec < NSEC_PER_SEC
}

fn to_nanoseconds(sec: u64, nsec: u64) -> (r: u64)
    ensures
        r == nanoseconds(sec as int, nsec as int),
{
    match sec.checked_mul(NSEC_PER_SEC) {
        Some(n) => n.saturating_add(nsec),
        None => u64::MAX,
    }
}

/// The current time of the realtime clock; its fraction of a second is that of
/// the monotonic clock.
pub fn realtime_now_ns(realtime_sec: u64, monotonic_ns: u64) -> (r: u64)
    ensures
        r == nanoseconds(realtime_sec as int, monotonic_ns as int % NSEC_PER_SEC as int),
{
    to_nanoseconds(realtime_sec, monotonic_ns % NSEC_PER_SEC)
}

/// Reads a deadline. A null pointer means none; `ts` is the time in memory, or
/// `None` if it cannot be read.
pub fn parse_abs_timeout(timeout_ptr: usize, ts: Option<TimeSpec>) -> (r: Result<
    Option<u64>,
    isize,
>)
    ensures
        r == deadline_of(timeout_ptr, ts),
{
    if timeout_ptr == 0 {
        return Ok(None);
    }
    let ts = match ts {
        Some(ts) => ts,
        None => {
            return Err(EFAULT);
        },
    };
    if ts.tv_sec < 0 || ts.tv_nsec < 0 || ts.tv_nsec >= NSEC_PER_SEC as i64 {
        return Err(EINVAL);
    }
    Ok(Some(to_nanoseconds(ts.tv_sec as u64, ts.tv_nsec as u64)))
}

/// The deadline that the arguments give.
pub open spec fn deadline_of(timeout_ptr: usize, ts: Option<TimeSpec>) -> Result<
    Option<u64>,
    isize,
> {
    if timeout_ptr == 0 {
        Ok(None)
    } else {
        match ts {
            None => Err(EFAULT),
            Some(t) => if timespec_ok(t) {
                Ok(Some(nanoseconds(t.tv_sec as int, t.tv_nsec as int)))
            } else {
                Err(EINVAL)
            },
        }
    }
}

/// The deadline has passed.
pub open spec fn expired(deadline: Option<u64>, now: u64) -> bool {
    deadline matches Some(d) && now >= d
}

/// Tells whether a deadline has passed.
pub fn timed_out(deadline: Option<u64>, now: u64) -> (r: bool)
    ensures
        r == expired(deadline, now),
{
    match deadline {
        Some(d) => now >= d,
        None => false,
    }
}

/// The milliseconds until a deadline, rounded up, and at least one.
pub open spec fn timer_ms(deadline: u64, now: u64) -> u64 {
    if deadline <= now {
        1
    } else {
        ((deadline - now + 999_999) / 1_000_000) as u64
    }
}

/// A timer that is set for a deadline does not fire before it.
pub proof fn law_timer_is_not_early(deadline: u64, now: u64)
    requires
        now <= deadline,
    ensures
        now + timer_ms(deadline, now) * 1_000_000 >= deadline,
        timer_ms(deadline, now) >= 1,
{
}

/// The delay of the timer that ends a wait at its deadline.
pub fn arm_timeout_timer(deadline: u64, now: u64) -> (r: u64)
    ensures
        r == timer_ms(deadline, now),
{
    let remain: u64 = deadline.saturating_sub(now);
    let mut wait: u64 = remain / 1_000_000;
    if remain % 1_000_000 != 0 {
        wait = wait + 1;
    }
    if wait < 1 {
        1
    } else {
        wait
    }
}

/// The bytes before the terminator.
pub open spec fn raw_name(mem: Seq<u8>) -> Seq<u8> {
    mem.take(index_or_end(mem, 0, 0))
}

/// A name without its leading slash.
pub open spec fn bare_name(raw: Seq<u8>) -> Seq<u8> {
    if raw.len() > 0 && raw[0] == 0x2f {
        raw.skip(1)
    } else {
        raw
    }
}

/// Why the bytes at `ptr` are no queue name; `mem` is what can be read there.
pub open spec fn name_error(ptr: usize, mem: Seq<u8>) -> Option<isize> {
    let end = index_or_end(mem, 0, 0);
    let name = bare_name(raw_name(mem));
    if ptr == 0 {
        Some(EFAULT)
    } else if end > MQ_NAME_MAX_WITH_SLASH {
        Some(ENAMETOOLONG)
    } else if end >= mem.len() {
        Some(EFAULT)
    } else if name.len() == 0 {
        Some(EINVAL)
    } else if name.len() > MQ_NAME_MAX {
        Some(ENAMETOOLONG)
    } else if name.contains(0x2fu8) || !valid_utf8(name) {
        Some(EINVAL)
    } else {
        None
    }
}

/// The queue name at `ptr`.
pub open spec fn name_value(mem: Seq<u8>) -> Seq<u8> {
    bare_name(raw_name(mem))
}

/// Reads a queue name: one leading slash is dropped, and the rest holds none.
pub fn read_queue_name(ptr: usize, mem: &[u8]) -> (r: Result<Vec<u8>, isize>)
    ensures
        match r {
            Ok(name) => name_error(ptr, mem@) is None && name@ == name_value(mem@),
            Err(e) => name_error(ptr, mem@) == Some(e),
        },
{
    if ptr == 0 {
        return Err(EFAULT);
    }
    let end: usize = find_byte(mem, 0, 0);
    if end > MQ_NAME_MAX_WITH_SLASH {
        return Err(ENAMETOOLONG);
    }
    if end >= mem.len() {
        return Err(EFAULT);
    }
    let from: usize = if end > 0 && mem[0] == 0x2f {
        1
    } else {
        0
    };
    let name = copy_range(mem, from, end);
    assert(name@ =~= name_value(mem@));
    if name.len() == 0 {
        return Err(EINVAL);
    }
    if name.len() > MQ_NAME_MAX {
        return Err(ENAMETOOLONG);
    }
    let slash: usize = find_byte(name.as_slice(), 0x2f, 0);
    proof {
        lemma_index_or_end(name@, 0x2f, 0);
    }
    if slash < name.len() {
        assert(name@[slash as int] == 0x2f);
        return Err(EINVAL);
    }
    assert(!name@.contains(0x2fu8));
    if !is_utf8(name.as_slice()) {
        return Err(EINVAL);
    }
    Ok(name)
}

/// A valid name is not empty, not too long and holds no slash; and it is the
/// same with and without a leading slash.
pub proof fn law_queue_names(ptr: usize, mem: Seq<u8>)
    requires
        name_error(ptr, mem) is None,
    ensures
        1 <= name_value(mem).len() <= MQ_NAME_MAX,
        !name_value(mem).contains(0x2fu8),
        bare_name(seq![0x2fu8] + name_value(mem)) == name_value(mem),
        bare_name(name_value(mem)) == name_value(mem),
{
    let name = name_value(mem);
    assert((seq![0x2fu8] + name).skip(1) =~= name);
    if name[0] == 0x2f {
        assert(name.contains(0x2fu8));
    }
}

/// Tells whether a signal can be delivered.
pub fn valid_realtime_signal(signo: usize) -> (r: bool)
    ensures
        r == (1 <= signo <= RT_SIG_MAX),
{
    signo != 0 && signo <= RT_SIG_MAX
}

} // verus!
