//! Job records: the run state enumeration, elapsed-time parsing with its
//! explicit invalid sentinel, and the job record itself.

use vstd::prelude::*;

use crate::error::{parse_error, CollectError};
use crate::text::{
    first_index_of, is_digit_char, lemma_first_index_is, pad2_string, spec_pad2, spec_digits,
    spec_split, spec_trim, split_str, str_eq, u64_to_string, uint_body, uint_ok, uint_value,
    parse_u64,
};

verus! {

/// Run state of a job, as the scheduler reports it in upper snake case.
#[derive(Clone, Copy, Debug, PartialEq, Eq, Structural)]
pub enum JobState {
    BootFail,
    Cancelled,
    Completed,
    Completing,
    Configuring,
    Deadline,
    Failed,
    NodeFail,
    OutOfMemory,
    Pending,
    Preempted,
    Requeued,
    RequeueFed,
    RequeueHold,
    Resizing,
    ResvDelHold,
    Revoked,
    Running,
    Signaling,
    SpecialExit,
    StageOut,
    Stopped,
    Suspended,
    Timeout,
}

/// The state a wire token decodes to, if any; the match is exact and the
/// enumeration deliberately has no catch-all.
pub open spec fn spec_job_state(s: Seq<char>) -> Option<JobState> {
    if s == "BOOT_FAIL"@ {
        Some(JobState::BootFail)
    } else if s == "CANCELLED"@ {
        Some(JobState::Cancelled)
    } else if s == "COMPLETED"@ {
        Some(JobState::Completed)
    } else if s == "COMPLETING"@ {
        Some(JobState::Completing)
    } else if s == "CONFIGURING"@ {
        Some(JobState::Configuring)
    } else if s == "DEADLINE"@ {
        Some(JobState::Deadline)
    } else if s == "FAILED"@ {
        Some(JobState::Failed)
    } else if s == "NODE_FAIL"@ {
        Some(JobState::NodeFail)
    } else if s == "OUT_OF_MEMORY"@ {
        Some(JobState::OutOfMemory)
    } else if s == "PENDING"@ {
        Some(JobState::Pending)
    } else if s == "PREEMPTED"@ {
        Some(JobState::Preempted)
    } else if s == "REQUEUED"@ {
        Some(JobState::Requeued)
    } else if s == "REQUEUE_FED"@ {
        Some(JobState::RequeueFed)
    } else if s == "REQUEUE_HOLD"@ {
        Some(JobState::RequeueHold)
    } else if s == "RESIZING"@ {
        Some(JobState::Resizing)
    } else if s == "RESV_DEL_HOLD"@ {
        Some(JobState::ResvDelHold)
    } else if s == "REVOKED"@ {
        Some(JobState::Revoked)
    } else if s == "RUNNING"@ {
        Some(JobState::Running)
    } else if s == "SIGNALING"@ {
        Some(JobState::Signaling)
    } else if s == "SPECIAL_EXIT"@ {
        Some(JobState::SpecialExit)
    } else if s == "STAGE_OUT"@ {
        Some(JobState::StageOut)
    } else if s == "STOPPED"@ {
        Some(JobState::Stopped)
    } else if s == "SUSPENDED"@ {
        Some(JobState::Suspended)
    } else if s == "TIMEOUT"@ {
        Some(JobState::Timeout)
    } else {
        None
    }
}

impl JobState {
    /// Decodes a wire token; an unknown state is a parse error, by design.
    pub fn from_wire(s: &str) -> (r: Result<JobState, CollectError>)
        ensures
            r is Ok <==> spec_job_state(s@) is Some,
            r is Ok ==> r->Ok_0 == spec_job_state(s@)->Some_0,
            r is Err ==> r->Err_0.is_parse_of("STATE"@, s@),
    {
        if str_eq(s, "BOOT_FAIL") {
            Ok(JobState::BootFail)
        } else if str_eq(s, "CANCELLED") {
            Ok(JobState::Cancelled)
        } else if str_eq(s, "COMPLETED") {
            Ok(JobState::Completed)
        } else if str_eq(s, "COMPLETING") {
            Ok(JobState::Completing)
        } else if str_eq(s, "CONFIGURING") {
            Ok(JobState::Configuring)
        } else if str_eq(s, "DEADLINE") {
            Ok(JobState::Deadline)
        } else if str_eq(s, "FAILED") {
            Ok(JobState::Failed)
        } else if str_eq(s, "NODE_FAIL") {
            Ok(JobState::NodeFail)
        } else if str_eq(s, "OUT_OF_MEMORY") {
            Ok(JobState::OutOfMemory)
        } else if str_eq(s, "PENDING") {
            Ok(JobState::Pending)
        } else if str_eq(s, "PREEMPTED") {
            Ok(JobState::Preempted)
        } else if str_eq(s, "REQUEUED") {
            Ok(JobState::Requeued)
        } else if str_eq(s, "REQUEUE_FED") {
            Ok(JobState::RequeueFed)
        } else if str_eq(s, "REQUEUE_HOLD") {
            Ok(JobState::RequeueHold)
        } else if str_eq(s, "RESIZING") {
            Ok(JobState::Resizing)
        } else if str_eq(s, "RESV_DEL_HOLD") {
            Ok(JobState::ResvDelHold)
        } else if str_eq(s, "REVOKED") {
            Ok(JobState::Revoked)
        } else if str_eq(s, "RUNNING") {
            Ok(JobState::Running)
        } else if str_eq(s, "SIGNALING") {
            Ok(JobState::Signaling)
        } else if str_eq(s, "SPECIAL_EXIT") {
            Ok(JobState::SpecialExit)
        } else if str_eq(s, "STAGE_OUT") {
            Ok(JobState::StageOut)
        } else if str_eq(s, "STOPPED") {
            Ok(JobState::Stopped)
        } else if str_eq(s, "SUSPENDED") {
            Ok(JobState::Suspended)
        } else if str_eq(s, "TIMEOUT") {
            Ok(JobState::Timeout)
        } else {
            Err(parse_error("STATE", s))
        }
    }
}

/// Elapsed running time of a job, in days, hours, minutes and seconds.
#[derive(Clone, Copy, Debug, PartialEq, Eq, Structural, PartialOrd, Ord)]
pub struct JobDuration {
    pub days: u64,
    pub hours: u64,
    pub minutes: u64,
    pub seconds: u64,
}

/// A job's elapsed time: either a structured duration or the scheduler's
/// explicit invalid marker (clock skew), which sorts below every duration.
#[derive(Clone, Copy, Debug, PartialEq, Eq, Structural, PartialOrd, Ord)]
pub enum Time {
    Invalid,
    Duration(JobDuration),
}

/// What an elapsed-time token decodes to: the literal `INVALID` maps to the
/// sentinel; otherwise an optional day count precedes `-`, and the rest
/// splits on `:` from the right into seconds, minutes and optional hours.
pub open spec fn spec_time(s: Seq<char>) -> Option<Time> {
    if s == "INVALID"@ {
        Some(Time::Invalid)
    } else {
        let dash = first_index_of(s, '-');
        let days_ok = dash == s.len() || (uint_ok(s.take(dash)) && uint_value(s.take(dash))
            <= u64::MAX);
        let days = if dash == s.len() {
            0int
        } else {
            uint_value(s.take(dash))
        };
        let rest = if dash == s.len() {
            s
        } else {
            s.skip(dash + 1)
        };
        let parts = spec_split(rest, ':');
        if !days_ok || parts.len() < 2 {
            None
        } else {
            let sec = parts[parts.len() - 1];
            let min = parts[parts.len() - 2];
            let hours_ok = parts.len() < 3 || (uint_ok(parts[parts.len() - 3]) && uint_value(
                parts[parts.len() - 3],
            ) <= u64::MAX);
            let hours = if parts.len() < 3 {
                0int
            } else {
                uint_value(parts[parts.len() - 3])
            };
            if uint_ok(sec) && uint_value(sec) <= u64::MAX && uint_ok(min) && uint_value(min)
                <= u64::MAX && hours_ok {
                Some(
                    Time::Duration(
                        JobDuration {
                            days: days as u64,
                            hours: hours as u64,
                            minutes: uint_value(min) as u64,
                            seconds: uint_value(sec) as u64,
                        },
                    ),
                )
            } else {
                None
            }
        }
    }
}

impl Time {
    /// Decodes an elapsed-time token.
    pub fn parse(s: &str) -> (r: Result<Time, CollectError>)
        ensures
            r is Ok <==> spec_time(s@) is Some,
            r is Ok ==> r->Ok_0 == spec_time(s@)->Some_0,
            r is Err ==> r->Err_0.is_parse_of("TIME"@, s@),
    {
        if str_eq(s, "INVALID") {
            return Ok(Time::Invalid);
        }
        let n = s.unicode_len();
        let mut dash: usize = 0;
        while dash < n && s.get_char(dash) != '-'
            invariant
                n == s@.len(),
                dash <= n,
                forall|j: int| 0 <= j < dash ==> s@[j] != '-',
            decreases n - dash,
        {
            dash += 1;
        }
        proof {
            lemma_first_index_is(s@, '-', dash as int);
        }
        let mut days: u64 = 0;
        let rest: &str = if dash == n {
            s
        } else {
            let days_str = s.substring_char(0, dash);
            proof {
                assert(days_str@ =~= s@.take(dash as int));
            }
            days = match parse_u64(days_str) {
                Some(v) => v,
                None => {
                    return Err(parse_error("TIME", s));
                },
            };
            let r = s.substring_char(dash + 1, n);
            proof {
                assert(r@ =~= s@.skip(dash + 1));
            }
            r
        };
        let parts = split_str(rest, ':');
        let np = parts.len();
        if np < 2 {
            return Err(parse_error("TIME", s));
        }
        let seconds = match parse_u64(parts[np - 1].as_str()) {
            Some(v) => v,
            None => {
                return Err(parse_error("TIME", s));
            },
        };
        let minutes = match parse_u64(parts[np - 2].as_str()) {
            Some(v) => v,
            None => {
                return Err(parse_error("TIME", s));
            },
        };
        let hours: u64 = if np >= 3 {
            match parse_u64(parts[np - 3].as_str()) {
                Some(v) => v,
                None => {
                    return Err(parse_error("TIME", s));
                },
            }
        } else {
            0
        };
        Ok(Time::Duration(JobDuration { days, hours, minutes, seconds }))
    }

    /// Renders the time the way the scheduler prints it.
    pub fn to_text(&self) -> (r: String)
        ensures
            self is Invalid ==> r@ == "INVALID"@,
            self matches Time::Duration(d) ==> r@ == spec_duration_text(*d),
    {
        match self {
            Time::Invalid => String::from_str("INVALID"),
            Time::Duration(d) => d.to_text(),
        }
    }
}

/// `[D-][HH:]MM:SS`: the day count appears only when non-zero, the hours
/// whenever there are days or hours.
pub open spec fn spec_duration_text(d: JobDuration) -> Seq<char> {
    (if d.days > 0 {
        spec_digits(d.days as int) + seq!['-']
    } else {
        Seq::empty()
    }) + (if d.days > 0 || d.hours > 0 {
        spec_pad2(d.hours as int) + seq![':']
    } else {
        Seq::empty()
    }) + spec_pad2(d.minutes as int) + seq![':'] + spec_pad2(d.seconds as int)
}

impl JobDuration {
    /// Renders the duration the way the scheduler prints it.
    pub fn to_text(&self) -> (r: String)
        ensures
            r@ == spec_duration_text(*self),
    {
        let mut s = String::new();
        if self.days > 0 {
            let mut t = u64_to_string(self.days);
            t.append("-");
            proof {
                reveal_strlit("-");
                assert(t@ =~= spec_digits(self.days as int) + seq!['-']);
            }
            s = t;
        }
        if self.days > 0 || self.hours > 0 {
            let h = pad2_string(self.hours);
            s.append(h.as_str());
            s.append(":");
            proof {
                reveal_strlit(":");
            }
        }
        let m = pad2_string(self.minutes);
        s.append(m.as_str());
        s.append(":");
        let sec = pad2_string(self.seconds);
        s.append(sec.as_str());
        proof {
            reveal_strlit(":");
            assert(s@ =~= spec_duration_text(*self));
        }
        s
    }
}

// ---------------------------------------------------------------------------
// Resource strings
// ---------------------------------------------------------------------------

pub open spec fn mem_unit_ok(u: char) -> bool {
    u == 'K' || u == 'M' || u == 'G' || u == 'T'
}

/// Numerator of the factor converting a unit to megabytes.
pub open spec fn mem_unit_num(u: char) -> int {
    if u == 'G' {
        1024
    } else if u == 'T' {
        1048576
    } else {
        1
    }
}

/// Denominator of the factor converting a unit to megabytes.
pub open spec fn mem_unit_den(u: char) -> int {
    if u == 'K' {
        1024
    } else {
        1
    }
}

/// A decodable memory amount: a decimal number followed by one of the four
/// unit letters, whose converted value stays within the amount bound.
pub open spec fn mem_wire_ok(v: Seq<char>) -> bool {
    v.len() > 0 && mem_unit_ok(v.last()) && crate::text::dec_in_range(
        v.drop_last(),
        mem_unit_num(v.last()),
        mem_unit_den(v.last()),
    )
}

/// The amount in megabytes, truncated: kilobytes divide by 1024, megabytes
/// pass through, gigabytes multiply by 1024, terabytes by 1048576.
pub open spec fn mem_wire_mb(v: Seq<char>) -> int {
    crate::text::dec_scaled(v.drop_last(), mem_unit_num(v.last()), mem_unit_den(v.last()))
}

/// Decodes a memory amount with its unit suffix into megabytes.
pub fn parse_memory(value: &str) -> (r: Result<u64, CollectError>)
    ensures
        r is Ok <==> mem_wire_ok(value@),
        r is Ok ==> r->Ok_0 == mem_wire_mb(value@),
        r is Err ==> r->Err_0.is_extraction_of("mem"@, value@),
{
    let n = value.unicode_len();
    if n == 0 {
        return Err(crate::error::extraction_error("mem", value));
    }
    let unit = value.get_char(n - 1);
    let prefix = value.substring_char(0, n - 1);
    proof {
        assert(prefix@ =~= value@.drop_last());
    }
    let scaled = if unit == 'K' {
        crate::text::parse_decimal_scaled(prefix, 1, 1024)
    } else if unit == 'M' {
        crate::text::parse_decimal_scaled(prefix, 1, 1)
    } else if unit == 'G' {
        crate::text::parse_decimal_scaled(prefix, 1024, 1)
    } else if unit == 'T' {
        crate::text::parse_decimal_scaled(prefix, 1048576, 1)
    } else {
        return Err(crate::error::extraction_error("mem", value));
    };
    match scaled {
        Some(v) => Ok(v),
        None => Err(crate::error::extraction_error("mem", value)),
    }
}

/// Scans the comma-separated `key=value` pairs of an allocated-resource
/// string from the left: `cpu` sets the CPU count, `mem` the memory in
/// megabytes (later entries win), anything else is ignored; a malformed
/// value stops the scan.
pub open spec fn spec_gres_scan(entries: Seq<Seq<char>>, cpus: int, mem: int) -> Option<
    (int, int),
>
    decreases entries.len(),
{
    if entries.len() == 0 {
        Some((cpus, mem))
    } else {
        let e = entries[0];
        let eq = first_index_of(e, '=');
        if eq == e.len() {
            spec_gres_scan(entries.drop_first(), cpus, mem)
        } else {
            let k = e.take(eq);
            let v = e.skip(eq + 1);
            if k == "cpu"@ {
                if crate::text::amount_ok(v) {
                    spec_gres_scan(entries.drop_first(), uint_value(v), mem)
                } else {
                    None
                }
            } else if k == "mem"@ {
                if mem_wire_ok(v) {
                    spec_gres_scan(entries.drop_first(), cpus, mem_wire_mb(v))
                } else {
                    None
                }
            } else {
                spec_gres_scan(entries.drop_first(), cpus, mem)
            }
        }
    }
}

/// Scans the comma-separated `type:name:count` triples of a per-node
/// trackable-resource string: an entry whose type is `gpu` (with or without
/// the `gres/` prefix) sets the GPU count from its final colon-separated
/// field; later entries win.
pub open spec fn spec_tres_scan(entries: Seq<Seq<char>>, gpus: int) -> Option<int>
    decreases entries.len(),
{
    if entries.len() == 0 {
        Some(gpus)
    } else {
        let e = entries[0];
        let c1 = first_index_of(e, ':');
        let first = e.take(c1);
        if first == "gpu"@ || first == "gres/gpu"@ {
            let last = if c1 == e.len() {
                e
            } else {
                let rest = e.skip(c1 + 1);
                let c2 = first_index_of(rest, ':');
                if c2 == rest.len() {
                    rest
                } else {
                    rest.skip(c2 + 1)
                }
            };
            if crate::text::amount_ok(last) {
                spec_tres_scan(entries.drop_first(), uint_value(last))
            } else {
                None
            }
        } else {
            spec_tres_scan(entries.drop_first(), gpus)
        }
    }
}

/// A successful resource scan keeps every count within the amount bound or
/// leaves the seed untouched.
pub proof fn lemma_gres_scan_bounds(entries: Seq<Seq<char>>, cpus: int, mem: int)
    requires
        0 <= cpus <= crate::MAX_AMOUNT,
        0 <= mem <= crate::MAX_AMOUNT,
        spec_gres_scan(entries, cpus, mem) is Some,
    ensures
        0 <= spec_gres_scan(entries, cpus, mem)->Some_0.0 <= crate::MAX_AMOUNT,
        0 <= spec_gres_scan(entries, cpus, mem)->Some_0.1 <= crate::MAX_AMOUNT,
    decreases entries.len(),
{
    if entries.len() > 0 {
        let e = entries[0];
        let eq = first_index_of(e, '=');
        if eq != e.len() {
            let v = e.skip(eq + 1);
            if e.take(eq) == "cpu"@ {
                crate::text::lemma_digits_value_nonneg(crate::text::uint_body(v));
                lemma_gres_scan_bounds(entries.drop_first(), uint_value(v), mem);
            } else if e.take(eq) == "mem"@ {
                lemma_mem_wire_mb_bounds(v);
                lemma_gres_scan_bounds(entries.drop_first(), cpus, mem_wire_mb(v));
            } else {
                lemma_gres_scan_bounds(entries.drop_first(), cpus, mem);
            }
        } else {
            lemma_gres_scan_bounds(entries.drop_first(), cpus, mem);
        }
    }
}

/// A decodable memory amount converts to a non-negative count of megabytes
/// within the amount bound.
pub proof fn lemma_mem_wire_mb_bounds(v: Seq<char>)
    requires
        mem_wire_ok(v),
    ensures
        0 <= mem_wire_mb(v) <= crate::MAX_AMOUNT,
{
    let p = v.drop_last();
    let num = crate::text::dec_num(p);
    let den = mem_unit_den(v.last()) * crate::text::pow10(dec_frac_len(v));
    crate::text::lemma_digits_value_nonneg(crate::text::dec_int(p));
    crate::text::lemma_digits_value_nonneg(crate::text::dec_frac(p));
    crate::text::lemma_pow10_pos(crate::text::dec_frac(p).len() as int);
    assert(num >= 0) by (nonlinear_arith)
        requires
            num == crate::text::digits_value(crate::text::dec_int(p)) * crate::text::pow10(
                crate::text::dec_frac(p).len() as int,
            ) + crate::text::digits_value(crate::text::dec_frac(p)),
            crate::text::digits_value(crate::text::dec_int(p)) >= 0,
            crate::text::digits_value(crate::text::dec_frac(p)) >= 0,
            crate::text::pow10(crate::text::dec_frac(p).len() as int) > 0,
    ;
    assert(den > 0) by (nonlinear_arith)
        requires
            den == mem_unit_den(v.last()) * crate::text::pow10(dec_frac_len(v)),
            mem_unit_den(v.last()) >= 1,
            crate::text::pow10(dec_frac_len(v)) > 0,
    ;
    assert(num * mem_unit_num(v.last()) >= 0) by (nonlinear_arith)
        requires
            num >= 0,
            mem_unit_num(v.last()) >= 0,
    ;
    vstd::arithmetic::div_mod::lemma_div_pos_is_pos(num * mem_unit_num(v.last()), den);
}

/// Fractional length shorthand for a memory amount.
pub open spec fn dec_frac_len(v: Seq<char>) -> int {
    crate::text::dec_frac(v.drop_last()).len() as int
}

/// A successful trackable-resource scan keeps the GPU count within the
/// amount bound or leaves the seed untouched.
pub proof fn lemma_tres_scan_bounds(entries: Seq<Seq<char>>, gpus: int)
    requires
        0 <= gpus <= crate::MAX_AMOUNT,
        spec_tres_scan(entries, gpus) is Some,
    ensures
        0 <= spec_tres_scan(entries, gpus)->Some_0 <= crate::MAX_AMOUNT,
    decreases entries.len(),
{
    if entries.len() > 0 {
        let e = entries[0];
        let c1 = first_index_of(e, ':');
        let first = e.take(c1);
        if first == "gpu"@ || first == "gres/gpu"@ {
            let last = if c1 == e.len() {
                e
            } else {
                let rest = e.skip(c1 + 1);
                let c2 = first_index_of(rest, ':');
                if c2 == rest.len() {
                    rest
                } else {
                    rest.skip(c2 + 1)
                }
            };
            crate::text::lemma_digits_value_nonneg(crate::text::uint_body(last));
            lemma_tres_scan_bounds(entries.drop_first(), uint_value(last));
        } else {
            lemma_tres_scan_bounds(entries.drop_first(), gpus);
        }
    }
}

/// Builds the format argument handed to the job-info source: the ordered
/// columns of the job table, pipe-delimited, without width limits.
pub fn squeue_format() -> (r: String)
    ensures
        r@ == crate::misc::spec_format_string(
            seq![
                "JobID"@,
                "NodeList"@,
                "Partition"@,
                "State"@,
                "UserName"@,
                "NumTasks"@,
                "Tres-Alloc"@,
                "Tres-Per-Node"@,
                "TimeUsed"@,
                "Name"@,
            ],
        ),
{
    let mut fields: Vec<String> = Vec::new();
    fields.push(String::from_str("JobID"));
    fields.push(String::from_str("NodeList"));
    fields.push(String::from_str("Partition"));
    fields.push(String::from_str("State"));
    fields.push(String::from_str("UserName"));
    fields.push(String::from_str("NumTasks"));
    fields.push(String::from_str("Tres-Alloc"));
    fields.push(String::from_str("Tres-Per-Node"));
    fields.push(String::from_str("TimeUsed"));
    fields.push(String::from_str("Name"));
    proof {
        assert(fields@.map_values(|t: String| t@) =~= seq![
            "JobID"@,
            "NodeList"@,
            "Partition"@,
            "State"@,
            "UserName"@,
            "NumTasks"@,
            "Tres-Alloc"@,
            "Tres-Per-Node"@,
            "TimeUsed"@,
            "Name"@,
        ]);
    }
    crate::misc::format_string(&fields)
}

/// The non-empty fields of a split, in order.
pub open spec fn nonempty_fields(parts: Seq<Seq<char>>) -> Seq<Seq<char>>
    decreases parts.len(),
{
    if parts.len() == 0 {
        Seq::empty()
    } else {
        (if parts[0].len() > 0 {
            seq![parts[0]]
        } else {
            Seq::empty()
        }) + nonempty_fields(parts.drop_first())
    }
}

/// Decodes a comma-separated node list; the empty string decodes to the
/// empty list, which marks a job that is not scheduled yet.
pub fn nodelist_from_str(s: &str) -> (r: Vec<String>)
    ensures
        r@.map_values(|t: String| t@) == nonempty_fields(spec_split(s@, ',')),
{
    let parts = split_str(s, ',');
    let mut r: Vec<String> = Vec::new();
    let mut i: usize = 0;
    let ghost all = spec_split(s@, ',');
    proof {
        assert(all.skip(0) =~= all);
        assert(r@.map_values(|t: String| t@) + nonempty_fields(all) =~= nonempty_fields(all));
    }
    while i < parts.len()
        invariant
            i <= parts@.len(),
            all == spec_split(s@, ','),
            all == parts@.map_values(|t: String| t@),
            nonempty_fields(all) == r@.map_values(|t: String| t@) + nonempty_fields(
                all.skip(i as int),
            ),
        decreases parts@.len() - i,
    {
        proof {
            assert(all.skip(i as int)[0] == all[i as int]);
            assert(all[i as int] == parts@[i as int]@);
            assert(all.skip(i as int).drop_first() =~= all.skip(i + 1));
        }
        let ghost old_r = r@;
        if parts[i].as_str().unicode_len() > 0 {
            r.push(parts[i].clone());
            proof {
                assert(r@.map_values(|t: String| t@) =~= old_r.map_values(|t: String| t@).push(
                    parts@[i as int]@,
                ));
                assert(old_r.map_values(|t: String| t@) + (seq![all[i as int]]
                    + nonempty_fields(all.skip(i + 1))) =~= r@.map_values(|t: String| t@)
                    + nonempty_fields(all.skip(i + 1)));
            }
        }
        i += 1;
    }
    proof {
        assert(all.skip(parts@.len() as int) =~= Seq::<Seq<char>>::empty());
        assert(r@.map_values(|t: String| t@) + nonempty_fields(all.skip(parts@.len() as int))
            =~= r@.map_values(|t: String| t@));
    }
    r
}

/// Round trip: a duration rendered the way the scheduler prints it parses
/// back to exactly that duration, and never to the invalid sentinel.
pub proof fn lemma_duration_round_trip(d: JobDuration)
    ensures
        spec_time(spec_duration_text(d)) == Some(Time::Duration(d)),
{
    let txt = spec_duration_text(d);
    let days = spec_digits(d.days as int);
    let ph = spec_pad2(d.hours as int);
    let pm = spec_pad2(d.minutes as int);
    let ps = spec_pad2(d.seconds as int);
    crate::text::lemma_digits_chars(d.days as int);
    crate::text::lemma_digits_roundtrip(d.days as int);
    crate::text::lemma_pad2_value(d.hours as int);
    crate::text::lemma_pad2_value(d.minutes as int);
    crate::text::lemma_pad2_value(d.seconds as int);
    let tail2 = pm + seq![':'] + ps;
    let tail1 = if d.days > 0 || d.hours > 0 {
        ph + seq![':'] + tail2
    } else {
        tail2
    };
    assert(no_colon_or_dash(days));
    assert(no_colon_or_dash(ph));
    assert(no_colon_or_dash(pm));
    assert(no_colon_or_dash(ps));
    assert(crate::text::no_char(tail1, '-')) by {
        assert forall|j: int| 0 <= j < tail1.len() implies tail1[j] != '-' by {
            lemma_time_tail_char(d, j);
        }
    }
    // the text never reads INVALID: it starts with a digit
    assert(txt[0] != 'I') by {
        reveal_strlit("INVALID");
        if d.days > 0 {
            assert(txt[0] == days[0]);
        } else if d.hours > 0 {
            assert(txt =~= tail1);
            assert(txt[0] == ph[0]);
        } else {
            assert(txt =~= tail1);
            assert(txt[0] == pm[0]);
        }
    }
    assert(txt != "INVALID"@) by {
        reveal_strlit("INVALID");
        if txt == "INVALID"@ {
            assert(txt[0] == 'I');
        }
    }
    // the day prefix ends at the first dash, or there is none
    if d.days > 0 {
        assert(txt =~= days + seq!['-'] + tail1);
        assert forall|j: int| 0 <= j < days.len() implies txt[j] != '-' by {
            assert(txt[j] == days[j]);
        }
        assert(txt[days.len() as int] == '-');
        lemma_first_index_is(txt, '-', days.len() as int);
        assert(txt.take(days.len() as int) =~= days);
        assert(uint_body(days) == days);
        assert(txt.skip(days.len() as int + 1) =~= tail1);
    } else {
        assert(txt =~= tail1);
        lemma_first_index_is(txt, '-', txt.len() as int);
    }
    // the remainder splits on the colons into its two or three fields
    assert(crate::text::no_char(ps, ':'));
    assert(crate::text::no_char(pm, ':'));
    assert(crate::text::no_char(ph, ':'));
    crate::text::lemma_split_whole(ps, ':');
    crate::text::lemma_split_prepend(pm, ps, ':');
    let parts2 = spec_split(tail2, ':');
    assert(parts2 =~= seq![pm, ps]);
    if d.days > 0 || d.hours > 0 {
        crate::text::lemma_split_prepend(ph, tail2, ':');
        assert(spec_split(tail1, ':') =~= seq![ph, pm, ps]);
    }
}

/// No digit and no colon is ever a dash, and only the explicit separators
/// of a rendered time are colons.
pub open spec fn no_colon_or_dash(s: Seq<char>) -> bool {
    crate::text::no_char(s, ':') && crate::text::no_char(s, '-')
}

proof fn lemma_time_tail_char(d: JobDuration, j: int)
    requires
        0 <= j < (if d.days > 0 || d.hours > 0 {
            spec_pad2(d.hours as int) + seq![':'] + (spec_pad2(d.minutes as int) + seq![':']
                + spec_pad2(d.seconds as int))
        } else {
            spec_pad2(d.minutes as int) + seq![':'] + spec_pad2(d.seconds as int)
        }).len(),
    ensures
        (if d.days > 0 || d.hours > 0 {
            spec_pad2(d.hours as int) + seq![':'] + (spec_pad2(d.minutes as int) + seq![':']
                + spec_pad2(d.seconds as int))
        } else {
            spec_pad2(d.minutes as int) + seq![':'] + spec_pad2(d.seconds as int)
        })[j] != '-',
{
    crate::text::lemma_pad2_value(d.hours as int);
    crate::text::lemma_pad2_value(d.minutes as int);
    crate::text::lemma_pad2_value(d.seconds as int);
    let ph = spec_pad2(d.hours as int);
    let pm = spec_pad2(d.minutes as int);
    let ps = spec_pad2(d.seconds as int);
    let tail2 = pm + seq![':'] + ps;
    if d.days > 0 || d.hours > 0 {
        let s = ph + seq![':'] + tail2;
        if j < ph.len() {
            assert(s[j] == ph[j]);
            assert(is_digit_char(ph[j]));
        } else if j == ph.len() {
            assert(s[j] == ':');
        } else {
            lemma_tail2_char(d, j - ph.len() - 1);
            assert(s[j] == tail2[j - ph.len() - 1]);
        }
    } else {
        lemma_tail2_char(d, j);
    }
}

proof fn lemma_tail2_char(d: JobDuration, j: int)
    requires
        0 <= j < (spec_pad2(d.minutes as int) + seq![':'] + spec_pad2(d.seconds as int)).len(),
    ensures
        (spec_pad2(d.minutes as int) + seq![':'] + spec_pad2(d.seconds as int))[j] != '-',
{
    crate::text::lemma_pad2_value(d.minutes as int);
    crate::text::lemma_pad2_value(d.seconds as int);
    let pm = spec_pad2(d.minutes as int);
    let ps = spec_pad2(d.seconds as int);
    let s = pm + seq![':'] + ps;
    if j < pm.len() {
        assert(s[j] == pm[j]);
        assert(is_digit_char(pm[j]));
    } else if j == pm.len() {
        assert(s[j] == ':');
    } else {
        assert(s[j] == ps[j - pm.len() - 1]);
        assert(is_digit_char(ps[j - pm.len() - 1]));
    }
}

/// One scheduler work item, immutable once built.
#[derive(Debug, PartialEq)]
pub struct Job {
    /// Numeric id of the job.
    pub id: u64,
    /// Zero or more nodes the job runs on; empty while it waits.
    pub nodelist: Vec<String>,
    /// Partition the job belongs to.
    pub partition: crate::nodes::PartitionName,
    /// Run state.
    pub state: JobState,
    /// Owning user.
    pub user: String,
    /// Number of tasks requested.
    pub tasks: u64,
    /// Number of nodes allocated (unused by the current resource strings).
    pub nodes: u64,
    /// CPUs allocated, from the allocated-resource string.
    pub cpus: u64,
    /// Memory allocated in megabytes, from the allocated-resource string.
    pub mem: u64,
    /// GPUs allocated per node, from the trackable-resource string.
    pub gpus: u64,
    /// Elapsed running time.
    pub time: Time,
    /// Free-form job name.
    pub name: String,
    /// Raw allocated-resource string (CPUs, memory).
    pub gres: String,
    /// Raw per-node trackable-resource string (GPUs).
    pub tres: String,
}

/// What a job is, mathematically: every field as a plain value.
#[verifier::ext_equal]
pub struct JobView {
    pub id: u64,
    pub nodelist: Seq<Seq<char>>,
    pub partition_label: Seq<char>,
    pub partition_default: bool,
    pub state: JobState,
    pub user: Seq<char>,
    pub tasks: u64,
    pub nodes: u64,
    pub cpus: u64,
    pub mem: u64,
    pub gpus: u64,
    pub time: Time,
    pub name: Seq<char>,
    pub gres: Seq<char>,
    pub tres: Seq<char>,
}

impl View for Job {
    type V = JobView;

    open spec fn view(&self) -> JobView {
        JobView {
            id: self.id,
            nodelist: self.nodelist@.map_values(|s: String| s@),
            partition_label: self.partition.label@,
            partition_default: self.partition.default,
            state: self.state,
            user: self.user@,
            tasks: self.tasks,
            nodes: self.nodes,
            cpus: self.cpus,
            mem: self.mem,
            gpus: self.gpus,
            time: self.time,
            name: self.name@,
            gres: self.gres@,
            tres: self.tres@,
        }
    }
}

impl Clone for Job {
    /// A clone carries exactly the same values.
    fn clone(&self) -> (res: Self)
        ensures
            res@ == self@,
    {
        let nodelist = self.nodelist.clone();
        proof {
            assert forall|i: int|
                0 <= i < nodelist@.len() implies (#[trigger] nodelist@[i])@
                == self.nodelist@[i]@ by {
                assert(vstd::pervasive::cloned::<String>(self.nodelist@[i], nodelist@[i]));
            }
            assert(nodelist@.map_values(|s: String| s@) =~= self.nodelist@.map_values(
                |s: String| s@,
            ));
        }
        let res = Job {
            id: self.id,
            nodelist,
            partition: self.partition.clone(),
            state: self.state,
            user: self.user.clone(),
            tasks: self.tasks,
            nodes: self.nodes,
            cpus: self.cpus,
            mem: self.mem,
            gpus: self.gpus,
            time: self.time,
            name: self.name.clone(),
            gres: self.gres.clone(),
            tres: self.tres.clone(),
        };
        proof {
            assert(res@ =~= self@);
        }
        res
    }
}

impl Job {
    /// Whether the ten split (untrimmed) fields of one job record all
    /// decode: id, node list, partition, state, user, task count, allocated
    /// resources, per-node trackable resources, elapsed time and name.
    pub open spec fn fields_ok(f: Seq<Seq<char>>) -> bool {
        &&& f.len() == 10
        &&& crate::text::amount_ok(spec_trim(f[0]))
        &&& spec_job_state(spec_trim(f[3])) is Some
        &&& crate::text::amount_ok(spec_trim(f[5]))
        &&& spec_gres_scan(spec_split(spec_trim(f[6]), ','), 0, 0) is Some
        &&& spec_tres_scan(spec_split(spec_trim(f[7]), ','), 0) is Some
        &&& spec_time(spec_trim(f[8])) is Some
    }

    /// Whether a job holds exactly what the ten fields decode to.
    pub open spec fn matches_fields(self, f: Seq<Seq<char>>) -> bool {
        &&& self.id == uint_value(spec_trim(f[0]))
        &&& self.nodelist@.map_values(|t: String| t@) == nonempty_fields(
            spec_split(spec_trim(f[1]), ','),
        )
        &&& self.partition.default == (spec_trim(f[2]).len() > 0 && spec_trim(f[2]).last()
            == '*')
        &&& self.partition.label@ == (if spec_trim(f[2]).len() > 0 && spec_trim(f[2]).last()
            == '*' {
            spec_trim(f[2]).drop_last()
        } else {
            spec_trim(f[2])
        })
        &&& Some(self.state) == spec_job_state(spec_trim(f[3]))
        &&& self.user@ == spec_trim(f[4])
        &&& self.tasks == uint_value(spec_trim(f[5]))
        &&& self.nodes == 0
        &&& self.cpus == spec_gres_scan(spec_split(spec_trim(f[6]), ','), 0, 0)->Some_0.0
        &&& self.mem == spec_gres_scan(spec_split(spec_trim(f[6]), ','), 0, 0)->Some_0.1
        &&& self.gpus == spec_tres_scan(spec_split(spec_trim(f[7]), ','), 0)->Some_0
        &&& Some(self.time) == spec_time(spec_trim(f[8]))
        &&& self.name@ == spec_trim(f[9])
        &&& self.gres@ == spec_trim(f[6])
        &&& self.tres@ == spec_trim(f[7])
    }

    /// Decodes the ten pipe-split fields of one job record.
    pub fn from_fields(fields: &Vec<String>) -> (r: Result<Job, CollectError>)
        ensures
            r is Ok <==> Self::fields_ok(fields@.map_values(|t: String| t@)),
            r is Ok ==> r->Ok_0.matches_fields(fields@.map_values(|t: String| t@)),
    {
        let ghost f = fields@.map_values(|t: String| t@);
        if fields.len() != 10 {
            return Err(parse_error("record", "wrong number of fields"));
        }
        proof {
            assert forall|k: int| 0 <= k < 10 implies f[k] == fields@[k]@ by {}
        }
        let t0 = crate::text::trim_str(fields[0].as_str());
        let id = match crate::text::parse_amount(t0) {
            Some(v) => v,
            None => {
                return Err(parse_error("JOBID", t0));
            },
        };
        let t1 = crate::text::trim_str(fields[1].as_str());
        let nodelist = nodelist_from_str(t1);
        let t2 = crate::text::trim_str(fields[2].as_str());
        let partition = crate::nodes::PartitionName::from_str(t2);
        let t3 = crate::text::trim_str(fields[3].as_str());
        let state = match JobState::from_wire(t3) {
            Ok(v) => v,
            Err(e) => {
                return Err(e);
            },
        };
        let t4 = crate::text::trim_str(fields[4].as_str());
        let t5 = crate::text::trim_str(fields[5].as_str());
        let tasks = match crate::text::parse_amount(t5) {
            Some(v) => v,
            None => {
                return Err(parse_error("NUMTASKS", t5));
            },
        };
        let t6 = crate::text::trim_str(fields[6].as_str());
        let t7 = crate::text::trim_str(fields[7].as_str());
        let t8 = crate::text::trim_str(fields[8].as_str());
        let time = match Time::parse(t8) {
            Ok(v) => v,
            Err(e) => {
                return Err(e);
            },
        };
        let t9 = crate::text::trim_str(fields[9].as_str());
        let mut job = Job {
            id,
            nodelist,
            partition,
            state,
            user: String::from_str(t4),
            tasks,
            nodes: 0,
            cpus: 0,
            mem: 0,
            gpus: 0,
            time,
            name: String::from_str(t9),
            gres: String::from_str(t6),
            tres: String::from_str(t7),
        };
        match job.update_from_gres() {
            Ok(()) => (),
            Err(e) => {
                return Err(e);
            },
        }
        match job.update_from_tres() {
            Ok(()) => (),
            Err(e) => {
                return Err(e);
            },
        }
        proof {
            lemma_gres_scan_bounds(spec_split(t6@, ','), 0, 0);
            lemma_tres_scan_bounds(spec_split(t7@, ','), 0);
        }
        Ok(job)
    }

    /// Parses the whole job table: the first line is the header, each
    /// further non-blank line is one record of ten pipe-separated fields.
    /// A failure on any record aborts the parse.
    pub fn parse_table(text: &str) -> (r: Result<Vec<Job>, CollectError>)
        ensures
            r is Ok <==> (forall|i: int|
                0 <= i < crate::text::data_lines(spec_split(text@, '\n').skip(1)).len()
                    ==> Self::fields_ok(
                    spec_split(
                        #[trigger] crate::text::data_lines(spec_split(text@, '\n').skip(1))[i],
                        '|',
                    ),
                )),
            r is Ok ==> ({
                let recs = crate::text::data_lines(spec_split(text@, '\n').skip(1));
                r->Ok_0@.len() == recs.len() && (forall|i: int|
                    0 <= i < recs.len() ==> (#[trigger] r->Ok_0@[i]).matches_fields(
                        spec_split(recs[i], '|'),
                    ))
            }),
    {
        let records = crate::text::record_lines(text);
        let ghost recs = crate::text::data_lines(spec_split(text@, '\n').skip(1));
        let mut jobs: Vec<Job> = Vec::new();
        let mut i: usize = 0;
        while i < records.len()
            invariant
                i <= records@.len(),
                recs == crate::text::data_lines(spec_split(text@, '\n').skip(1)),
                recs == records@.map_values(|t: String| t@),
                jobs@.len() == i,
                forall|k: int|
                    0 <= k < i ==> Self::fields_ok(spec_split(#[trigger] recs[k], '|')),
                forall|k: int|
                    0 <= k < i ==> (#[trigger] jobs@[k]).matches_fields(
                        spec_split(recs[k], '|'),
                    ),
            decreases records@.len() - i,
        {
            proof {
                assert(recs[i as int] == records@[i as int]@);
            }
            let fields = split_str(records[i].as_str(), '|');
            let job = match Self::from_fields(&fields) {
                Ok(j) => j,
                Err(e) => {
                    return Err(e);
                },
            };
            jobs.push(job);
            i += 1;
        }
        Ok(jobs)
    }

    /// Fills the CPU and memory counts from the allocated-resource string;
    /// on an error the job is left untouched.
    pub fn update_from_gres(&mut self) -> (r: Result<(), CollectError>)
        ensures
            r is Ok <==> spec_gres_scan(
                spec_split(old(self).gres@, ','),
                old(self).cpus as int,
                old(self).mem as int,
            ) is Some,
            r is Ok ==> ({
                let sc = spec_gres_scan(
                    spec_split(old(self).gres@, ','),
                    old(self).cpus as int,
                    old(self).mem as int,
                )->Some_0;
                *final(self) == (Job { cpus: sc.0 as u64, mem: sc.1 as u64, ..*old(self) })
            }),
            r is Err ==> *final(self) == *old(self) && (r->Err_0 matches
                CollectError::Extraction { .. }),
    {
        let parts = split_str(self.gres.as_str(), ',');
        let ghost all = spec_split(self.gres@, ',');
        let mut cpus: u64 = self.cpus;
        let mut mem: u64 = self.mem;
        let mut i: usize = 0;
        proof {
            assert(all.skip(0) =~= all);
        }
        while i < parts.len()
            invariant
                i <= parts@.len(),
                all == spec_split(old(self).gres@, ','),
                all == parts@.map_values(|t: String| t@),
                spec_gres_scan(all, old(self).cpus as int, old(self).mem as int)
                    == spec_gres_scan(all.skip(i as int), cpus as int, mem as int),
                *self == *old(self),
            decreases parts@.len() - i,
        {
            proof {
                assert(all.skip(i as int)[0] == all[i as int]);
                assert(all[i as int] == parts@[i as int]@);
                assert(all.skip(i as int).drop_first() =~= all.skip(i + 1));
            }
            let e = parts[i].as_str();
            let eq = crate::text::find_char(e, '=');
            let n = e.unicode_len();
            if eq < n {
                let key = e.substring_char(0, eq);
                let value = e.substring_char(eq + 1, n);
                proof {
                    assert(key@ =~= e@.take(eq as int));
                    assert(value@ =~= e@.skip(eq + 1));
                }
                if str_eq(key, "cpu") {
                    match crate::text::parse_amount(value) {
                        Some(v) => {
                            cpus = v;
                        },
                        None => {
                            return Err(crate::error::extraction_error("cpu", value));
                        },
                    }
                } else if str_eq(key, "mem") {
                    match parse_memory(value) {
                        Ok(v) => {
                            mem = v;
                        },
                        Err(err) => {
                            return Err(err);
                        },
                    }
                }
            }
            i += 1;
        }
        proof {
            assert(all.skip(parts@.len() as int) =~= Seq::<Seq<char>>::empty());
        }
        self.cpus = cpus;
        self.mem = mem;
        Ok(())
    }

    /// Fills the GPU count from the per-node trackable-resource string; on
    /// an error the job is left untouched.
    pub fn update_from_tres(&mut self) -> (r: Result<(), CollectError>)
        ensures
            r is Ok <==> spec_tres_scan(spec_split(old(self).tres@, ','), old(self).gpus as int)
                is Some,
            r is Ok ==> ({
                let sc = spec_tres_scan(
                    spec_split(old(self).tres@, ','),
                    old(self).gpus as int,
                )->Some_0;
                *final(self) == (Job { gpus: sc as u64, ..*old(self) })
            }),
            r is Err ==> *final(self) == *old(self) && (r->Err_0 matches
                CollectError::Extraction { .. }),
    {
        let parts = split_str(self.tres.as_str(), ',');
        let ghost all = spec_split(self.tres@, ',');
        let mut gpus: u64 = self.gpus;
        let mut i: usize = 0;
        proof {
            assert(all.skip(0) =~= all);
        }
        while i < parts.len()
            invariant
                i <= parts@.len(),
                all == spec_split(old(self).tres@, ','),
                all == parts@.map_values(|t: String| t@),
                spec_tres_scan(all, old(self).gpus as int) == spec_tres_scan(
                    all.skip(i as int),
                    gpus as int,
                ),
                *self == *old(self),
            decreases parts@.len() - i,
        {
            proof {
                assert(all.skip(i as int)[0] == all[i as int]);
                assert(all[i as int] == parts@[i as int]@);
                assert(all.skip(i as int).drop_first() =~= all.skip(i + 1));
            }
            let e = parts[i].as_str();
            let n = e.unicode_len();
            let c1 = crate::text::find_char(e, ':');
            let first = e.substring_char(0, c1);
            proof {
                assert(first@ =~= e@.take(c1 as int));
            }
            if str_eq(first, "gpu") || str_eq(first, "gres/gpu") {
                let last: &str = if c1 == n {
                    e
                } else {
                    let rest = e.substring_char(c1 + 1, n);
                    proof {
                        assert(rest@ =~= e@.skip(c1 + 1));
                    }
                    let c2 = crate::text::find_char(rest, ':');
                    if c2 == rest.unicode_len() {
                        rest
                    } else {
                        let l = rest.substring_char(c2 + 1, rest.unicode_len());
                        proof {
                            assert(l@ =~= rest@.skip(c2 + 1));
                        }
                        l
                    }
                };
                match crate::text::parse_amount(last) {
                    Some(v) => {
                        gpus = v;
                    },
                    None => {
                        return Err(crate::error::extraction_error("gpu", last));
                    },
                }
            }
            i += 1;
        }
        proof {
            assert(all.skip(parts@.len() as int) =~= Seq::<Seq<char>>::empty());
        }
        self.gpus = gpus;
        Ok(())
    }
}

} // verus!
