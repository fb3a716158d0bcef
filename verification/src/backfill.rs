//! The backfill orchestrator's pure core: block-range argument parsing,
//! fixed-size chunking of the requested range, and the run state that
//! walks sub-ranges strictly in increasing order, retries a failed fetch a
//! bounded number of times, records skipped sub-ranges as gaps, and
//! collects the decoded events for global deduplication.

use vstd::prelude::*;
use vstd::string::StrSliceExecFns;
use vstd::string::StringExecFns;
use crate::events::{decode_spec, EventV, RawLog, RawLogV, TokenRegistered};

verus! {

/// Chain block time in seconds, used to turn a relative time window into a
/// block count.
pub const POLYGON_BLOCK_TIME_SECS: u64 = 2;

/// Splits `[from_block, to_block]` into contiguous sub-ranges of
/// `chunk_size` blocks (the last may be shorter), in strictly increasing
/// order. These clauses determine the result uniquely.
pub fn chunk_ranges(from_block: u64, to_block: u64, chunk_size: u64) -> (r: Vec<(u64, u64)>)
    requires
        from_block <= to_block,
        chunk_size >= 1,
        to_block < u64::MAX,
    ensures
        r@.len() >= 1,
        r@[0].0 == from_block,
        r@[r@.len() - 1].1 == to_block,
        forall|i: int| 0 <= i < r@.len() ==> (#[trigger] r@[i]).0 <= r@[i].1 <= to_block,
        forall|i: int| 0 <= i < r@.len() ==> (#[trigger] r@[i]).1 - r@[i].0 + 1 <= chunk_size,
        forall|i: int| 0 <= i && i + 1 < r@.len() ==> (#[trigger] r@[i + 1]).0 == r@[i].1 + 1,
        forall|i: int| 0 <= i && i + 1 < r@.len() ==> (#[trigger] r@[i]).1 - r@[i].0 + 1 == chunk_size,
{
    let mut out: Vec<(u64, u64)> = Vec::new();
    let mut start: u64 = from_block;
    while start <= to_block
        invariant
            from_block <= start <= to_block + 1,
            chunk_size >= 1,
            to_block < u64::MAX,
            (out@.len() == 0) <==> (start == from_block),
            out@.len() > 0 ==> out@[0].0 == from_block && out@[out@.len() - 1].1 + 1 == start,
            forall|i: int| 0 <= i < out@.len() ==> (#[trigger] out@[i]).0 <= out@[i].1 <= to_block,
            forall|i: int| 0 <= i < out@.len() ==> (#[trigger] out@[i]).1 - out@[i].0 + 1 <= chunk_size,
            forall|i: int| 0 <= i && i + 1 < out@.len() ==> (#[trigger] out@[i + 1]).0 == out@[i].1 + 1,
            forall|i: int| 0 <= i && i + 1 < out@.len() ==> (#[trigger] out@[i]).1 - out@[i].0 + 1 == chunk_size,
            out@.len() > 0 && start <= to_block ==> out@[out@.len() - 1].1 - out@[out@.len()
                - 1].0 + 1 == chunk_size,
        decreases to_block + 1 - start,
    {
        let end: u64 = if chunk_size - 1 <= to_block - start {
            start + (chunk_size - 1)
        } else {
            to_block
        };
        let ghost out0 = out@;
        out.push((start, end));
        proof {
            assert forall|i: int| 0 <= i && i + 1 < out@.len() implies (#[trigger] out@[i + 1]).0
                == out@[i].1 + 1 by {
                assert(out@[i] == out0[i]);
                if i + 1 < out0.len() {
                    assert(out@[i + 1] == out0[i + 1]);
                } else {
                    assert(out@[i + 1] == (start, end));
                }
            }
            assert forall|i: int| 0 <= i && i + 1 < out@.len() implies (#[trigger] out@[i]).1 - out@[i].0
                + 1 == chunk_size by {
                assert(out@[i] == out0[i]);
            }
        }
        start = end + 1;
    }
    out
}

/// Whether `c` is a decimal digit.
pub open spec fn is_digit(c: char) -> bool {
    ('0' as u32) <= (c as u32) && (c as u32) <= ('9' as u32)
}

/// The number a string of decimal digits denotes.
pub open spec fn digits_val(s: Seq<char>) -> nat
    recommends
        forall|i: int| 0 <= i < s.len() ==> is_digit(s[i]),
    decreases s.len(),
{
    if s.len() == 0 {
        0
    } else {
        digits_val(s.drop_last()) * 10 + (((s.last() as u32) - ('0' as u32)) as nat)
    }
}

/// Whether `s` is a well-formed decimal numeral: nonempty, digits only.
pub open spec fn is_numeral(s: Seq<char>) -> bool {
    s.len() > 0 && forall|i: int| 0 <= i < s.len() ==> is_digit(#[trigger] s[i])
}

proof fn lemma_digits_val_grows(s: Seq<char>, i: int)
    requires
        0 <= i <= s.len(),
    ensures
        digits_val(s.take(i)) <= digits_val(s),
    decreases s.len() - i,
{
    if i < s.len() {
        lemma_digits_val_grows(s, i + 1);
        assert(s.take(i + 1).drop_last() =~= s.take(i));
        let d = (((s.take(i + 1).last() as u32) - ('0' as u32)) as nat);
        assert(digits_val(s.take(i)) * 10 + d >= digits_val(s.take(i))) by (nonlinear_arith);
    } else {
        assert(s.take(i) =~= s);
    }
}

/// Parses a decimal numeral; `None` when `s` is not one or its value does
/// not fit in a `u64`.
pub fn parse_u64(s: &str) -> (r: Option<u64>)
    ensures
        r is Some <==> is_numeral(s@) && digits_val(s@) <= u64::MAX,
        r matches Some(v) ==> v == digits_val(s@),
{
    let n: usize = s.unicode_len();
    if n == 0 {
        return None;
    }
    let mut acc: u64 = 0;
    let mut i: usize = 0;
    while i < n
        invariant
            n == s@.len(),
            0 < n,
            0 <= i <= n,
            forall|j: int| 0 <= j < i ==> is_digit(#[trigger] s@[j]),
            acc == digits_val(s@.take(i as int)),
        decreases n - i,
    {
        let c: char = s.get_char(i);
        let u: u32 = c as u32;
        if u < 48 || u > 57 {
            return None;
        }
        let d: u64 = (u - 48) as u64;
        proof {
            assert(s@.take(i + 1 as int).drop_last() =~= s@.take(i as int));
            assert(s@.take(i + 1 as int).last() == s@[i as int]);
        }
        let next: u64 = match acc.checked_mul(10) {
            Some(x) => match x.checked_add(d) {
                Some(y) => y,
                None => {
                    proof {
                        lemma_digits_val_grows(s@, i + 1);
                    }
                    return None;
                },
            },
            None => {
                proof {
                    assert(digits_val(s@.take(i + 1 as int)) >= acc * 10) by (nonlinear_arith)
                        requires
                            digits_val(s@.take(i + 1 as int)) == acc * 10 + (((s@[i as int] as u32)
                                - ('0' as u32)) as nat),
                    ;
                    lemma_digits_val_grows(s@, i + 1);
                }
                return None;
            },
        };
        acc = next;
        i = i + 1;
    }
    proof {
        assert(s@.take(n as int) =~= s@);
    }
    Some(acc)
}

/// Why a block range could not be read from the arguments.
#[derive(Clone, Copy, Debug, PartialEq, Eq, Structural)]
pub enum ArgError {
    /// A time-window flag is present but its value is missing, not a
    /// numeral, or yields an overflowing window.
    InvalidTimeWindow,
    /// No time-window flag is given and the explicit block range is
    /// missing or unreadable.
    InvalidRange,
}

/// Index of the first argument equal to `flag`, or `-1`.
pub open spec fn arg_pos(args: Seq<Seq<char>>, flag: Seq<char>) -> int
    decreases args.len(),
{
    if args.len() == 0 {
        -1
    } else if args.first() == flag {
        0
    } else {
        let r = arg_pos(args.drop_first(), flag);
        if r < 0 {
            -1
        } else {
            r + 1
        }
    }
}

proof fn lemma_arg_pos(args: Seq<Seq<char>>, flag: Seq<char>)
    ensures
        arg_pos(args, flag) == -1 || (0 <= arg_pos(args, flag) < args.len()),
        arg_pos(args, flag) == -1 ==> forall|i: int| 0 <= i < args.len() ==> args[i] != flag,
        arg_pos(args, flag) >= 0 ==> args[arg_pos(args, flag)] == flag,
        arg_pos(args, flag) >= 0 ==> forall|i: int|
            0 <= i < arg_pos(args, flag) ==> args[i] != flag,
    decreases args.len(),
{
    if args.len() > 0 && args.first() != flag {
        lemma_arg_pos(args.drop_first(), flag);
        assert forall|i: int| 1 <= i < args.len() implies args[i] == args.drop_first()[i - 1] by {}
    }
}

proof fn lemma_arg_pos_at(args: Seq<Seq<char>>, flag: Seq<char>, k: int)
    requires
        0 <= k < args.len(),
        args[k] == flag,
        forall|i: int| 0 <= i < k ==> args[i] != flag,
    ensures
        arg_pos(args, flag) == k,
    decreases args.len(),
{
    if k > 0 {
        assert(args[0] == args.first());
        assert forall|i: int| 1 <= i < args.len() implies args[i] == args.drop_first()[i - 1] by {}
        lemma_arg_pos_at(args.drop_first(), flag, k - 1);
    }
}

/// The numeral value following the first occurrence of `flag`, when the
/// flag is present, followed by a value, and that value is a numeral that
/// fits in a `u64`.
pub open spec fn flag_value(args: Seq<Seq<char>>, flag: Seq<char>) -> Option<u64> {
    let p = arg_pos(args, flag);
    if p >= 0 && p + 1 < args.len() && is_numeral(args[p + 1]) && digits_val(args[p + 1])
        <= u64::MAX {
        Some(digits_val(args[p + 1]) as u64)
    } else {
        None
    }
}

/// The block range a time window denotes: the window in seconds, turned
/// into blocks at the fixed chain block time, counted back from the
/// current block.
pub open spec fn time_window_range(n: u64, unit: u64, current_block: u64) -> Result<
    (u64, u64),
    ArgError,
> {
    if n * unit > u64::MAX {
        Err(ArgError::InvalidTimeWindow)
    } else {
        let back = ((n * unit) as u64 / POLYGON_BLOCK_TIME_SECS) as u64;
        let from = if back > current_block {
            0u64
        } else {
            (current_block - back) as u64
        };
        Ok((from, current_block))
    }
}

/// What `parse_block_range` yields: the first time-window flag present
/// (days, then hours, then minutes) wins and is converted to a range
/// ending at the current block; else the explicit from/to pair is read.
pub open spec fn block_range_spec(args: Seq<Seq<char>>, current_block: u64) -> Result<
    (u64, u64),
    ArgError,
> {
    if arg_pos(args, "--days"@) >= 0 {
        match flag_value(args, "--days"@) {
            Some(n) => time_window_range(n, 86400, current_block),
            None => Err(ArgError::InvalidTimeWindow),
        }
    } else if arg_pos(args, "--hours"@) >= 0 {
        match flag_value(args, "--hours"@) {
            Some(n) => time_window_range(n, 3600, current_block),
            None => Err(ArgError::InvalidTimeWindow),
        }
    } else if arg_pos(args, "--minutes"@) >= 0 {
        match flag_value(args, "--minutes"@) {
            Some(n) => time_window_range(n, 60, current_block),
            None => Err(ArgError::InvalidTimeWindow),
        }
    } else {
        match (flag_value(args, "--from-block"@), flag_value(args, "--to-block"@)) {
            (Some(f), Some(t)) => Ok((f, t)),
            _ => Err(ArgError::InvalidRange),
        }
    }
}

fn find_arg(args: &Vec<String>, flag: &String) -> (r: Option<usize>)
    ensures
        r is Some <==> arg_pos(args.deep_view(), flag@) >= 0,
        r matches Some(i) ==> i == arg_pos(args.deep_view(), flag@),
{
    let ghost av = args.deep_view();
    let n: usize = args.len();
    let mut i: usize = 0;
    while i < n
        invariant
            n == args@.len(),
            av == args.deep_view(),
            av.len() == n,
            0 <= i <= n,
            forall|j: int| 0 <= j < i ==> av[j] != flag@,
        decreases n - i,
    {
        proof {
            assert(av[i as int] == args@[i as int]@);
        }
        if args[i] == *flag {
            proof {
                lemma_arg_pos_at(av, flag@, i as int);
            }
            return Some(i);
        }
        i = i + 1;
    }
    proof {
        lemma_arg_pos(av, flag@);
        if arg_pos(av, flag@) >= 0 {
            assert(av[arg_pos(av, flag@)] == flag@);
        }
    }
    None
}

/// The value following `flag`, parsed as a `u64` numeral.
fn read_flag_value(args: &Vec<String>, flag: &String) -> (r: Option<u64>)
    ensures
        r == flag_value(args.deep_view(), flag@),
{
    let ghost av = args.deep_view();
    match find_arg(args, flag) {
        Some(p) => {
            let n: usize = args.len();
            proof {
                lemma_arg_pos(av, flag@);
                assert(av.len() == args@.len());
                assert(p < n);
            }
            if p + 1 < n {
                proof {
                    assert(av[p + 1 as int] == args@[p + 1 as int]@);
                }
                parse_u64(args[p + 1].as_str())
            } else {
                None
            }
        },
        None => None,
    }
}

fn time_window_to_range(n: u64, unit: u64, current_block: u64) -> (r: Result<(u64, u64), ArgError>)
    ensures
        r == time_window_range(n, unit, current_block),
{
    match n.checked_mul(unit) {
        Some(seconds) => {
            let back: u64 = seconds / POLYGON_BLOCK_TIME_SECS;
            let from: u64 = if back > current_block {
                0
            } else {
                current_block - back
            };
            Ok((from, current_block))
        },
        None => Err(ArgError::InvalidTimeWindow),
    }
}

/// Reads the block range the arguments request: a relative time window
/// (`--days`, `--hours` or `--minutes`, converted to blocks at the fixed
/// chain block time, ending at `current_block`), or an explicit
/// `--from-block`/`--to-block` pair. Exactly `block_range_spec`.
pub fn parse_block_range(args: &Vec<String>, current_block: u64) -> (r: Result<
    (u64, u64),
    ArgError,
>)
    ensures
        r == block_range_spec(args.deep_view(), current_block),
{
    let days_flag: String = String::from_str("--days");
    let hours_flag: String = String::from_str("--hours");
    let minutes_flag: String = String::from_str("--minutes");
    if find_arg(args, &days_flag).is_some() {
        match read_flag_value(args, &days_flag) {
            Some(n) => time_window_to_range(n, 86400, current_block),
            None => Err(ArgError::InvalidTimeWindow),
        }
    } else if find_arg(args, &hours_flag).is_some() {
        match read_flag_value(args, &hours_flag) {
            Some(n) => time_window_to_range(n, 3600, current_block),
            None => Err(ArgError::InvalidTimeWindow),
        }
    } else if find_arg(args, &minutes_flag).is_some() {
        match read_flag_value(args, &minutes_flag) {
            Some(n) => time_window_to_range(n, 60, current_block),
            None => Err(ArgError::InvalidTimeWindow),
        }
    } else {
        let from_flag: String = String::from_str("--from-block");
        let to_flag: String = String::from_str("--to-block");
        match (read_flag_value(args, &from_flag), read_flag_value(args, &to_flag)) {
            (Some(f), Some(t)) => Ok((f, t)),
            _ => Err(ArgError::InvalidRange),
        }
    }
}

/// The events a batch of raw logs decodes to, in order, skipping logs
/// that do not decode.
pub open spec fn decoded_events(logs: Seq<RawLogV>) -> Seq<EventV>
    decreases logs.len(),
{
    if logs.len() == 0 {
        Seq::<EventV>::empty()
    } else {
        let rest = decoded_events(logs.drop_last());
        match decode_spec(logs.last()) {
            Ok(e) => rest.push(e),
            Err(_) => rest,
        }
    }
}

/// State of one historical backfill run: the planned sub-ranges, the
/// cursor into them, the per-sub-range retry budget, the events decoded
/// so far, and what the run will report.
pub struct BackfillRun {
    /// Planned sub-ranges, strictly increasing and contiguous.
    pub chunks: Vec<(u64, u64)>,
    /// Index of the next sub-range to fetch.
    pub next_chunk: usize,
    /// Fetch attempts left for the current sub-range.
    pub attempts_left: u32,
    /// Fetch attempts granted per sub-range.
    pub max_attempts: u32,
    /// Events decoded from fetched sub-ranges, in arrival order.
    pub events: Vec<TokenRegistered>,
    /// Sub-ranges given up on after exhausting their attempts.
    pub gaps: Vec<(u64, u64)>,
    /// Raw logs that did not decode and were skipped.
    pub malformed_logs: u64,
}

impl BackfillRun {
    /// The run's invariant.
    pub open spec fn wf(self) -> bool {
        &&& self.next_chunk <= self.chunks@.len()
        &&& self.max_attempts >= 1
        &&& 1 <= self.attempts_left <= self.max_attempts
    }

    /// Plans a run over `[from_block, to_block]` in `chunk_size` pieces
    /// with `max_attempts` fetch attempts per sub-range.
    pub fn new(from_block: u64, to_block: u64, chunk_size: u64, max_attempts: u32) -> (r:
        BackfillRun)
        requires
            from_block <= to_block,
            chunk_size >= 1,
            to_block < u64::MAX,
            max_attempts >= 1,
        ensures
            r.wf(),
            r.next_chunk == 0,
            r.attempts_left == max_attempts,
            r.max_attempts == max_attempts,
            r.events@.len() == 0,
            r.gaps@.len() == 0,
            r.malformed_logs == 0,
            r.chunks@.len() >= 1,
            r.chunks@[0].0 == from_block,
            r.chunks@[r.chunks@.len() - 1].1 == to_block,
            forall|i: int| 0 <= i && i + 1 < r.chunks@.len() ==> (#[trigger] r.chunks@[i + 1]).0 == r.chunks@[i].1 + 1,
            forall|i: int| 0 <= i < r.chunks@.len() ==> (#[trigger] r.chunks@[i]).0 <= r.chunks@[i].1 <= to_block,
            forall|i: int| 0 <= i && i + 1 < r.chunks@.len() ==> (#[trigger] r.chunks@[i]).1 - r.chunks@[i].0 + 1 == chunk_size,
    {
        BackfillRun {
            chunks: chunk_ranges(from_block, to_block, chunk_size),
            next_chunk: 0,
            attempts_left: max_attempts,
            max_attempts,
            events: Vec::new(),
            gaps: Vec::new(),
            malformed_logs: 0,
        }
    }

    /// The sub-range to fetch next, `None` once the run has walked them
    /// all.
    pub fn current_range(&self) -> (r: Option<(u64, u64)>)
        requires
            self.wf(),
        ensures
            r is Some <==> self.next_chunk < self.chunks@.len(),
            r matches Some(c) ==> c == self.chunks@[self.next_chunk as int],
    {
        if self.next_chunk < self.chunks.len() {
            Some(self.chunks[self.next_chunk])
        } else {
            None
        }
    }

    /// Takes the logs fetched for the current sub-range: decodes each,
    /// skips and counts those that do not decode, and moves to the next
    /// sub-range with a fresh attempt budget.
    pub fn on_logs(&mut self, logs: &Vec<RawLog>)
        requires
            old(self).wf(),
            old(self).next_chunk < old(self).chunks@.len(),
            old(self).malformed_logs + logs@.len() <= u64::MAX,
        ensures
            final(self).wf(),
            final(self).chunks == old(self).chunks,
            final(self).gaps == old(self).gaps,
            final(self).max_attempts == old(self).max_attempts,
            final(self).next_chunk == old(self).next_chunk + 1,
            final(self).attempts_left == old(self).max_attempts,
            final(self).events.deep_view() == old(self).events.deep_view() + decoded_events(
                logs.deep_view(),
            ),
            final(self).malformed_logs == old(self).malformed_logs + logs@.len() - decoded_events(
                logs.deep_view(),
            ).len(),
    {
        let ghost lv = logs.deep_view();
        let ghost events0 = self.events.deep_view();
        let ghost bad0 = self.malformed_logs;
        let n: usize = logs.len();
        let mut i: usize = 0;
        while i < n
            invariant
                n == logs@.len(),
                lv == logs.deep_view(),
                lv.len() == n,
                0 <= i <= n,
                bad0 + n <= u64::MAX,
                self.chunks == old(self).chunks,
                self.gaps == old(self).gaps,
                self.max_attempts == old(self).max_attempts,
                self.next_chunk == old(self).next_chunk,
                self.attempts_left == old(self).attempts_left,
                self.events.deep_view() == events0 + decoded_events(lv.take(i as int)),
                decoded_events(lv.take(i as int)).len() <= i,
                self.malformed_logs == bad0 + i - decoded_events(lv.take(i as int)).len(),
            decreases n - i,
        {
            proof {
                assert(lv[i as int] == logs@[i as int]@);
                assert(lv.take(i + 1 as int).drop_last() =~= lv.take(i as int));
                assert(lv.take(i + 1 as int).last() == lv[i as int]);
            }
            match TokenRegistered::from_log(&logs[i]) {
                Ok(e) => {
                    let ghost ev = e@;
                    let ghost events_prev = self.events.deep_view();
                    self.events.push(e);
                    proof {
                        assert(decoded_events(lv.take(i + 1 as int)) == decoded_events(
                            lv.take(i as int),
                        ).push(ev));
                        assert(self.events.deep_view() =~= events_prev.push(ev));
                        assert(events_prev.push(ev) =~= events0 + decoded_events(
                            lv.take(i as int),
                        ).push(ev));
                        assert(self.events.deep_view() =~= events0 + decoded_events(
                            lv.take(i + 1 as int),
                        ));
                    }
                },
                Err(_) => {
                    self.malformed_logs = self.malformed_logs + 1;
                    proof {
                        assert(decode_spec(lv[i as int]) is Err);
                        assert(decoded_events(lv.take(i + 1 as int)) == decoded_events(
                            lv.take(i as int),
                        ));
                        assert(self.events.deep_view() =~= events0 + decoded_events(
                            lv.take(i + 1 as int),
                        ));
                    }
                },
            }
            i = i + 1;
        }
        proof {
            assert(lv.take(n as int) =~= lv);
        }
        let total: usize = self.chunks.len();
        self.next_chunk = self.next_chunk + 1;
        self.attempts_left = self.max_attempts;
    }

    /// Takes a fetch failure for the current sub-range: retries while
    /// attempts remain, else records the sub-range as a gap and moves on.
    /// Returns whether the sub-range will be retried.
    pub fn on_fetch_error(&mut self) -> (retry: bool)
        requires
            old(self).wf(),
            old(self).next_chunk < old(self).chunks@.len(),
        ensures
            final(self).wf(),
            final(self).chunks == old(self).chunks,
            final(self).events == old(self).events,
            final(self).max_attempts == old(self).max_attempts,
            final(self).malformed_logs == old(self).malformed_logs,
            retry <==> old(self).attempts_left > 1,
            retry ==> final(self).next_chunk == old(self).next_chunk && final(self).attempts_left
                == old(self).attempts_left - 1 && final(self).gaps == old(self).gaps,
            !retry ==> {
                &&& final(self).next_chunk == old(self).next_chunk + 1
                &&& final(self).attempts_left == old(self).max_attempts
                &&& final(self).gaps@ == old(self).gaps@.push(
                    old(self).chunks@[old(self).next_chunk as int],
                )
            },
    {
        if self.attempts_left > 1 {
            self.attempts_left = self.attempts_left - 1;
            true
        } else {
            let total: usize = self.chunks.len();
            let range = self.chunks[self.next_chunk];
            self.gaps.push(range);
            self.next_chunk = self.next_chunk + 1;
            self.attempts_left = self.max_attempts;
            false
        }
    }
}

} // verus!
