//! Capture-session state and decisions.
//!
//! One capture session runs per monitor, driven by the operating system's
//! capture facility.  The decisions it makes — which monitor id and FPS cap
//! its settings string names, when to log the frame rate, how long to
//! sleep to honor the cap, and what to publish into the Frame Store — are
//! plain computations kept here; the session's thread, the OS callbacks
//! and the sleeps stay outside.

use crate::frame_store::{FrameData, FrameStore};
use vstd::prelude::*;
use vstd::string::StrSliceExecFns;

verus! {

/// ASCII whitespace, as the flag parser strips it.
pub open spec fn is_space(c: char) -> bool {
    c == ' ' || c == '\t' || c == '\r' || c == '\n'
}

/// A decimal digit.
pub open spec fn is_digit(c: char) -> bool {
    48 <= c as int <= 57
}

pub open spec fn digit_val(c: char) -> int {
    c as int - 48
}

/// The number a digit string denotes, most significant digit first.
pub open spec fn digits_val(s: Seq<char>) -> int
    decreases s.len(),
{
    if s.len() == 0 {
        0
    } else {
        digits_val(s.drop_last()) * 10 + digit_val(s.last())
    }
}

pub open spec fn all_digits(s: Seq<char>) -> bool {
    forall|i: int| 0 <= i < s.len() ==> is_digit(#[trigger] s[i])
}

/// The string with its leading whitespace dropped.
pub open spec fn trim_front(s: Seq<char>) -> Seq<char>
    decreases s.len(),
{
    if s.len() > 0 && is_space(s[0]) {
        trim_front(s.drop_first())
    } else {
        s
    }
}

/// The string with its trailing whitespace dropped.
pub open spec fn trim_back(s: Seq<char>) -> Seq<char>
    decreases s.len(),
{
    if s.len() > 0 && is_space(s.last()) {
        trim_back(s.drop_last())
    } else {
        s
    }
}

/// The string with whitespace dropped at both ends.
pub open spec fn trim_spec(s: Seq<char>) -> Seq<char> {
    trim_back(trim_front(s))
}

/// The digit part of a signed integer literal: everything after an
/// optional single leading `-` or `+`.
pub open spec fn int_body(s: Seq<char>) -> Seq<char> {
    if s.len() > 0 && (s[0] == '-' || s[0] == '+') {
        s.subrange(1, s.len() as int)
    } else {
        s
    }
}

/// What `i32` parsing yields: an optional sign, then only digits, and a
/// value in range — else nothing.
pub open spec fn parse_i32_spec(s: Seq<char>) -> Option<int> {
    let body = int_body(s);
    if body.len() == 0 || !all_digits(body) {
        None
    } else {
        let v = if s[0] == '-' {
            -digits_val(body)
        } else {
            digits_val(body)
        };
        if i32::MIN <= v <= i32::MAX {
            Some(v)
        } else {
            None
        }
    }
}

/// What `u32` parsing yields: an optional `+`, then only digits, and a
/// value in range — else nothing.
pub open spec fn parse_u32_spec(s: Seq<char>) -> Option<int> {
    let body = if s.len() > 0 && s[0] == '+' {
        s.subrange(1, s.len() as int)
    } else {
        s
    };
    if body.len() == 0 || !all_digits(body) {
        None
    } else if digits_val(body) <= u32::MAX {
        Some(digits_val(body))
    } else {
        None
    }
}

/// How many commas the string holds.
pub open spec fn comma_count(s: Seq<char>) -> int
    decreases s.len(),
{
    if s.len() == 0 {
        0
    } else {
        comma_count(s.drop_last()) + if s.last() == ',' {
            1int
        } else {
            0int
        }
    }
}

/// The index of the first comma; the length when there is none.
pub open spec fn first_comma(s: Seq<char>) -> int
    decreases s.len(),
{
    if s.len() == 0 {
        0
    } else if s[0] == ',' {
        0
    } else {
        1 + first_comma(s.drop_first())
    }
}

/// What the settings flag string "<id>,<fps>" denotes: exactly two
/// comma-separated fields, each trimmed and parsed as a number.
pub open spec fn flags_spec(s: Seq<char>) -> Option<(int, int)> {
    if comma_count(s) != 1 {
        None
    } else {
        let k = first_comma(s);
        let id = parse_i32_spec(trim_spec(s.subrange(0, k)));
        let fps = parse_u32_spec(trim_spec(s.subrange(k + 1, s.len() as int)));
        if id is Some && fps is Some {
            Some((id->Some_0, fps->Some_0))
        } else {
            None
        }
    }
}

/// Why a settings flag string was rejected.
#[derive(Debug, Clone, Copy, PartialEq, Eq, Structural)]
pub enum FlagsError {
    /// Not exactly two comma-separated fields.
    InvalidFormat,
    /// A field is not a number in range.
    InvalidNumber,
}

/// Dropping a character from a digit string can only shrink its value.
proof fn lemma_digits_val_mono(s: Seq<char>, k: int)
    requires
        0 <= k <= s.len(),
        all_digits(s),
    ensures
        0 <= digits_val(s.subrange(0, k)) <= digits_val(s),
    decreases s.len(),
{
    if s.len() == 0 {
        assert(s.subrange(0, k) =~= s);
    } else if k == s.len() {
        assert(s.subrange(0, k) =~= s);
        lemma_digits_val_mono(s.drop_last(), k - 1);
    } else {
        assert(s.drop_last().subrange(0, k) =~= s.subrange(0, k));
        lemma_digits_val_mono(s.drop_last(), k);
        assert(digits_val(s.drop_last()) * 10 + digit_val(s.last()) >= digits_val(s.drop_last()))
            by (nonlinear_arith)
            requires
                digits_val(s.drop_last()) >= 0,
                digit_val(s.last()) >= 0,
        ;
    }
}

/// A fully scanned prefix without whitespace at its border pins down
/// `trim_front`.
proof fn lemma_trim_front_at(s: Seq<char>, a: int)
    requires
        0 <= a <= s.len(),
        forall|j: int| 0 <= j < a ==> is_space(#[trigger] s[j]),
        a < s.len() ==> !is_space(s[a]),
    ensures
        trim_front(s) == s.subrange(a, s.len() as int),
    decreases a,
{
    if a == 0 {
        assert(s.subrange(0, s.len() as int) =~= s);
    } else {
        lemma_trim_front_at(s.drop_first(), a - 1);
        assert(s.drop_first().subrange(a - 1, s.drop_first().len() as int) =~= s.subrange(
            a,
            s.len() as int,
        ));
    }
}

/// A fully scanned suffix without whitespace at its border pins down
/// `trim_back`.
proof fn lemma_trim_back_at(s: Seq<char>, b: int)
    requires
        0 <= b <= s.len(),
        forall|j: int| b <= j < s.len() ==> is_space(#[trigger] s[j]),
        b > 0 ==> !is_space(s[b - 1]),
    ensures
        trim_back(s) == s.subrange(0, b),
    decreases s.len() - b,
{
    if b == s.len() {
        assert(s.subrange(0, b) =~= s);
    } else {
        lemma_trim_back_at(s.drop_last(), b);
        assert(s.drop_last().subrange(0, b) =~= s.subrange(0, b));
    }
}

/// The first comma is where the scan found it.
proof fn lemma_first_comma_at(s: Seq<char>, k: int)
    requires
        0 <= k < s.len(),
        s[k] == ',',
        forall|j: int| 0 <= j < k ==> #[trigger] s[j] != ',',
    ensures
        first_comma(s) == k,
    decreases k,
{
    if k > 0 {
        lemma_first_comma_at(s.drop_first(), k - 1);
    }
}

/// Whether a character is ASCII whitespace.
fn is_ws(c: char) -> (b: bool)
    ensures
        b == is_space(c),
{
    c == ' ' || c == '\t' || c == '\r' || c == '\n'
}

/// Strip ASCII whitespace from both ends.
pub fn trim(s: &str) -> (r: &str)
    ensures
        r@ == trim_spec(s@),
{
    let n = s.unicode_len();
    let mut a: usize = 0;
    while a < n && is_ws(s.get_char(a))
        invariant
            a <= n,
            n == s@.len(),
            forall|j: int| 0 <= j < a ==> is_space(#[trigger] s@[j]),
        decreases n - a,
    {
        a = a + 1;
    }
    let mut b: usize = n;
    while b > a && is_ws(s.get_char(b - 1))
        invariant
            a <= b <= n,
            n == s@.len(),
            forall|j: int| 0 <= j < a ==> is_space(#[trigger] s@[j]),
            a < n ==> !is_space(s@[a as int]),
            forall|j: int| b <= j < n ==> is_space(#[trigger] s@[j]),
        decreases b,
    {
        b = b - 1;
    }
    proof {
        lemma_trim_front_at(s@, a as int);
        let t = s@.subrange(a as int, n as int);
        lemma_trim_back_at(t, b - a);
        assert(t.subrange(0, b - a) =~= s@.subrange(a as int, b as int));
    }
    s.substring_char(a, b)
}

/// Parse a trimmed decimal `i32`, with an optional leading sign.
pub fn parse_i32(s: &str) -> (r: Option<i32>)
    ensures
        match r {
            Some(v) => parse_i32_spec(s@) == Some(v as int),
            None => parse_i32_spec(s@) is None,
        },
{
    let n = s.unicode_len();
    if n == 0 {
        return None;
    }
    let c0 = s.get_char(0);
    let neg = c0 == '-';
    let start: usize = if neg || c0 == '+' {
        1
    } else {
        0
    };
    let ghost body = int_body(s@);
    proof {
        assert(body =~= s@.subrange(start as int, n as int));
    }
    if start == n {
        return None;
    }
    let mut acc: u64 = 0;
    let mut i: usize = start;
    while i < n
        invariant
            start <= i <= n,
            n == s@.len(),
            start < n,
            body == s@.subrange(start as int, n as int),
            body == int_body(s@),
            all_digits(s@.subrange(start as int, i as int)),
            acc == digits_val(s@.subrange(start as int, i as int)),
            acc <= 0x8000_0000,
            neg == (s@[0] == '-'),
        decreases n - i,
    {
        let c = s.get_char(i);
        let cv = c as u32;
        proof {
            assert(s@.subrange(start as int, i + 1).drop_last() =~= s@.subrange(
                start as int,
                i as int,
            ));
            assert(s@.subrange(start as int, i + 1).last() == s@[i as int]);
        }
        if cv < 48 || cv > 57 {
            proof {
                assert(body[i - start] == s@[i as int]);
                assert(!all_digits(body));
            }
            return None;
        }
        let d = (cv - 48) as u64;
        acc = acc * 10 + d;
        if acc > 0x8000_0000 {
            proof {
                if all_digits(body) {
                    lemma_digits_val_mono(body, i + 1 - start);
                    assert(body.subrange(0, i + 1 - start) =~= s@.subrange(start as int, i + 1));
                }
            }
            return None;
        }
        i = i + 1;
    }
    proof {
        assert(s@.subrange(start as int, n as int) =~= body);
    }
    if neg {
        Some((-(acc as i64)) as i32)
    } else {
        if acc > 0x7fff_ffff {
            return None;
        }
        Some(acc as i32)
    }
}

/// Parse a trimmed decimal `u32`, with an optional leading `+`.
pub fn parse_u32(s: &str) -> (r: Option<u32>)
    ensures
        match r {
            Some(v) => parse_u32_spec(s@) == Some(v as int),
            None => parse_u32_spec(s@) is None,
        },
{
    let n = s.unicode_len();
    if n == 0 {
        return None;
    }
    let c0 = s.get_char(0);
    let start: usize = if c0 == '+' {
        1
    } else {
        0
    };
    let ghost body = if s@[0] == '+' {
        s@.subrange(1, n as int)
    } else {
        s@
    };
    proof {
        assert(body =~= s@.subrange(start as int, n as int));
    }
    if start == n {
        return None;
    }
    let mut acc: u64 = 0;
    let mut i: usize = start;
    while i < n
        invariant
            start <= i <= n,
            n == s@.len(),
            start < n,
            body == s@.subrange(start as int, n as int),
            body == (if s@[0] == '+' {
                s@.subrange(1, n as int)
            } else {
                s@
            }),
            all_digits(s@.subrange(start as int, i as int)),
            acc == digits_val(s@.subrange(start as int, i as int)),
            acc <= u32::MAX,
        decreases n - i,
    {
        let c = s.get_char(i);
        let cv = c as u32;
        proof {
            assert(s@.subrange(start as int, i + 1).drop_last() =~= s@.subrange(
                start as int,
                i as int,
            ));
            assert(s@.subrange(start as int, i + 1).last() == s@[i as int]);
        }
        if cv < 48 || cv > 57 {
            proof {
                assert(body[i - start] == s@[i as int]);
                assert(!all_digits(body));
            }
            return None;
        }
        let d = (cv - 48) as u64;
        acc = acc * 10 + d;
        if acc > u32::MAX as u64 {
            proof {
                if all_digits(body) {
                    lemma_digits_val_mono(body, i + 1 - start);
                    assert(body.subrange(0, i + 1 - start) =~= s@.subrange(start as int, i + 1));
                }
            }
            return None;
        }
        i = i + 1;
    }
    proof {
        assert(s@.subrange(start as int, n as int) =~= body);
    }
    Some(acc as u32)
}

/// Parse the capture settings string "<id>,<fps>": the monitor id this
/// session captures and its FPS cap (0 disables the cap).
pub fn parse_flags(flags: &str) -> (r: Result<(i32, u32), FlagsError>)
    ensures
        match r {
            Ok(p) => flags_spec(flags@) == Some((p.0 as int, p.1 as int)),
            Err(e) => flags_spec(flags@) is None && (e == FlagsError::InvalidFormat <==> comma_count(
                flags@,
            ) != 1),
        },
{
    let n = flags.unicode_len();
    let mut ccount: usize = 0;
    let mut k: usize = 0;
    let mut i: usize = 0;
    while i < n
        invariant
            i <= n,
            n == flags@.len(),
            ccount <= i,
            ccount == comma_count(flags@.subrange(0, i as int)),
            ccount > 0 ==> k < i && flags@[k as int] == ',' && (forall|j: int|
                0 <= j < k ==> #[trigger] flags@[j] != ','),
            ccount == 0 ==> forall|j: int| 0 <= j < i ==> #[trigger] flags@[j] != ',',
        decreases n - i,
    {
        let c = flags.get_char(i);
        proof {
            assert(flags@.subrange(0, i + 1).drop_last() =~= flags@.subrange(0, i as int));
            assert(flags@.subrange(0, i + 1).last() == flags@[i as int]);
        }
        if c == ',' {
            if ccount == 0 {
                k = i;
            }
            ccount = ccount + 1;
        }
        i = i + 1;
    }
    proof {
        assert(flags@.subrange(0, n as int) =~= flags@);
    }
    if ccount != 1 {
        return Err(FlagsError::InvalidFormat);
    }
    proof {
        lemma_first_comma_at(flags@, k as int);
    }
    let part1 = flags.substring_char(0, k);
    let part2 = flags.substring_char(k + 1, n);
    let id_opt = parse_i32(trim(part1));
    let fps_opt = parse_u32(trim(part2));
    match (id_opt, fps_opt) {
        (Some(id), Some(fps)) => Ok((id, fps)),
        _ => Err(FlagsError::InvalidNumber),
    }
}

/// One capture session's state: which monitor it serves, its FPS cap, and
/// the frame counters and millisecond timestamps behind its rate
/// decisions.  The wall clock stays outside: callers pass a monotonic
/// `now_ms` in.
pub struct Capture {
    pub id: i32,
    pub fps_limit: u32,
    pub frame_count: u32,
    pub process_start_ms: u64,
    pub frame_time_ms: u64,
    pub last_fps_log_ms: u64,
}

impl Capture {
    /// Start a session from its settings string; an unparsable string
    /// falls back to monitor 0 with a 10 FPS cap.
    pub fn new(flags: &str, now_ms: u64) -> (c: Capture)
        ensures
            match flags_spec(flags@) {
                Some(p) => c.id == p.0 && c.fps_limit == p.1,
                None => c.id == 0 && c.fps_limit == 10,
            },
            c.frame_count == 0,
            c.process_start_ms == now_ms,
            c.frame_time_ms == now_ms,
            c.last_fps_log_ms == now_ms,
    {
        let (id, fps_limit) = match parse_flags(flags) {
            Ok(f) => f,
            Err(_) => (0, 10),
        };
        Capture {
            id,
            fps_limit,
            frame_count: 0,
            process_start_ms: now_ms,
            frame_time_ms: now_ms,
            last_fps_log_ms: now_ms,
        }
    }

    /// Frame-arrival bookkeeping: count the frame, and once a full second
    /// has passed since the last report, reset the counter and tell the
    /// caller to log the frame rate.
    pub fn register_frame(&mut self, now_ms: u64) -> (log_fps: bool)
        requires
            old(self).frame_count < u32::MAX,
            now_ms >= old(self).last_fps_log_ms,
        ensures
            log_fps == (now_ms - old(self).last_fps_log_ms >= 1000),
            final(self).frame_count == (if log_fps {
                0u32
            } else {
                (old(self).frame_count + 1) as u32
            }),
            final(self).last_fps_log_ms == (if log_fps {
                now_ms
            } else {
                old(self).last_fps_log_ms
            }),
            final(self).id == old(self).id,
            final(self).fps_limit == old(self).fps_limit,
            final(self).process_start_ms == old(self).process_start_ms,
            final(self).frame_time_ms == old(self).frame_time_ms,
    {
        self.frame_count = self.frame_count + 1;
        if now_ms - self.last_fps_log_ms >= 1000 {
            self.frame_count = 0;
            self.last_fps_log_ms = now_ms;
            true
        } else {
            false
        }
    }

    /// Publish a captured buffer as this session's latest frame,
    /// overwriting any previous one.
    pub fn publish_frame(&self, store: &mut FrameStore, data: Vec<u8>)
        ensures
            final(store)@ == old(store)@.insert(self.id, data@),
    {
        store.publish(self.id, FrameData { data });
    }

    /// How long to keep the thread off the CPU after a publish: the
    /// unspent remainder of the per-frame budget `1000 / fps_limit`
    /// milliseconds, or zero when the budget is spent or the cap is off.
    pub fn remaining_frame_millis(&self, now_ms: u64) -> (rem: u64)
        requires
            now_ms >= self.frame_time_ms,
        ensures
            rem == (if self.fps_limit > 0 && now_ms - self.frame_time_ms < 1000int / (
            self.fps_limit as int) {
                1000int / (self.fps_limit as int) - (now_ms - self.frame_time_ms)
            } else {
                0int
            }),
    {
        if self.fps_limit == 0 {
            return 0;
        }
        let budget: u64 = 1000 / (self.fps_limit as u64);
        let elapsed: u64 = now_ms - self.frame_time_ms;
        if elapsed < budget {
            budget - elapsed
        } else {
            0
        }
    }

    /// Restart the per-frame timer once the sleep is over.
    pub fn reset_frame_timer(&mut self, now_ms: u64)
        ensures
            final(self).frame_time_ms == now_ms,
            final(self).id == old(self).id,
            final(self).fps_limit == old(self).fps_limit,
            final(self).frame_count == old(self).frame_count,
            final(self).process_start_ms == old(self).process_start_ms,
            final(self).last_fps_log_ms == old(self).last_fps_log_ms,
    {
        self.frame_time_ms = now_ms;
    }
}

} // verus!
