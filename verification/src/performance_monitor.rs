//! How long the stages of consensus take for each block.
//!
//! Points in time are nanoseconds since some fixed moment, and spans of time
//! are nanoseconds. Sums stop at the largest number that fits.
use vstd::prelude::*;

use crate::text;

verus! {

/// A stage of consensus.
#[derive(Clone, Copy, Debug, PartialEq, Eq, Structural)]
pub enum Stage {
    NewHeight,
    NewRound,
    Propose,
    Prevote,
    Precommit,
    Commit,
}

impl Stage {
    /// The name of the stage.
    pub open spec fn title(self) -> Seq<char> {
        match self {
            Stage::NewHeight => "new_height"@,
            Stage::NewRound => "new_round"@,
            Stage::Propose => "propose"@,
            Stage::Prevote => "prevote"@,
            Stage::Precommit => "precommit"@,
            Stage::Commit => "commit"@,
        }
    }

    /// The name of the stage.
    pub fn name(self) -> (r: &'static str)
        ensures
            r@ == self.title(),
    {
        match self {
            Stage::NewHeight => "new_height",
            Stage::NewRound => "new_round",
            Stage::Propose => "propose",
            Stage::Prevote => "prevote",
            Stage::Precommit => "precommit",
            Stage::Commit => "commit",
        }
    }
}

/// A character of a step's name in its normal form: ASCII letters in lower
/// case, and underscores for blanks and hyphens.
pub open spec fn normal_char(c: char) -> char {
    if 'A' <= c && c <= 'Z' {
        (c as int + 32) as char
    } else if c == ' ' || c == '-' {
        '_'
    } else {
        c
    }
}

/// The name of a step in its normal form, without white space around it.
pub open spec fn normal_name(name: Seq<char>) -> Seq<char> {
    text::trim_of(name).map_values(|c: char| normal_char(c))
}

/// The stage that a step's name means, if any.
pub open spec fn stage_of(name: Seq<char>) -> Option<Stage> {
    let n = normal_name(name);
    if n == "newheight"@ || n == "new_height"@ {
        Some(Stage::NewHeight)
    } else if n == "newround"@ || n == "new_round"@ {
        Some(Stage::NewRound)
    } else if n == "propose"@ {
        Some(Stage::Propose)
    } else if n == "prevote"@ {
        Some(Stage::Prevote)
    } else if n == "precommit"@ {
        Some(Stage::Precommit)
    } else if n == "commit"@ {
        Some(Stage::Commit)
    } else {
        None
    }
}

fn lower_char(c: char) -> (r: char)
    ensures
        r == normal_char(c),
{
    let u: u32 = c as u32;
    if 65 <= u && u <= 90 {
        (u as u8 + 32) as char
    } else if u == 32 || u == 45 {
        '_'
    } else {
        c
    }
}

/// The stage that a step's name means. Case does not count, nor whether words
/// are parted by blanks, hyphens or underscores.
pub fn normalize_step_name(step_name: &str) -> (r: Option<Stage>)
    ensures
        r == stage_of(step_name@),
{
    let trimmed: &str = text::trim(step_name);
    let n: usize = trimmed.unicode_len();
    let mut normal: String = String::from_str("");
    let mut i: usize = 0;
    proof {
        reveal_strlit("");
        assert(""@ =~= trimmed@.take(0).map_values(|c: char| normal_char(c)));
    }
    while i < n
        invariant
            i <= n == trimmed@.len(),
            normal@ == trimmed@.take(i as int).map_values(|c: char| normal_char(c)),
        decreases n - i,
    {
        let ghost before = normal@;
        normal.push(lower_char(trimmed.get_char(i)));
        i = i + 1;
        assert(normal@ =~= trimmed@.take(i as int).map_values(|c: char| normal_char(c)));
    }
    assert(trimmed@.take(n as int) =~= trimmed@);
    let s: &str = normal.as_str();
    if text::same_text(s, "newheight") || text::same_text(s, "new_height") {
        Some(Stage::NewHeight)
    } else if text::same_text(s, "newround") || text::same_text(s, "new_round") {
        Some(Stage::NewRound)
    } else if text::same_text(s, "propose") {
        Some(Stage::Propose)
    } else if text::same_text(s, "prevote") {
        Some(Stage::Prevote)
    } else if text::same_text(s, "precommit") {
        Some(Stage::Precommit)
    } else if text::same_text(s, "commit") {
        Some(Stage::Commit)
    } else {
        None
    }
}

/// The time spent in each stage.
#[derive(Clone, Copy, Debug, PartialEq, Eq, Structural)]
pub struct StepDurations {
    pub new_height_ns: u64,
    pub new_round_ns: u64,
    pub propose_ns: u64,
    pub prevote_ns: u64,
    pub precommit_ns: u64,
    pub commit_ns: u64,
}

impl Default for StepDurations {
    fn default() -> (r: Self)
        ensures
            r == no_time(),
    {
        StepDurations {
            new_height_ns: 0,
            new_round_ns: 0,
            propose_ns: 0,
            prevote_ns: 0,
            precommit_ns: 0,
            commit_ns: 0,
        }
    }
}

/// No time in any stage.
pub open spec fn no_time() -> StepDurations {
    StepDurations {
        new_height_ns: 0,
        new_round_ns: 0,
        propose_ns: 0,
        prevote_ns: 0,
        precommit_ns: 0,
        commit_ns: 0,
    }
}

/// The sum of two spans of time.
pub open spec fn plus(a: u64, b: u64) -> u64 {
    if a + b > u64::MAX {
        u64::MAX
    } else {
        (a + b) as u64
    }
}

impl StepDurations {
    /// The time spent in a stage.
    pub open spec fn of(self, stage: Stage) -> u64 {
        match stage {
            Stage::NewHeight => self.new_height_ns,
            Stage::NewRound => self.new_round_ns,
            Stage::Propose => self.propose_ns,
            Stage::Prevote => self.prevote_ns,
            Stage::Precommit => self.precommit_ns,
            Stage::Commit => self.commit_ns,
        }
    }

    /// The durations with more time in one stage.
    pub open spec fn with(self, stage: Stage, ns: u64) -> StepDurations {
        match stage {
            Stage::NewHeight => StepDurations {
                new_height_ns: plus(self.new_height_ns, ns),
                ..self
            },
            Stage::NewRound => StepDurations {
                new_round_ns: plus(self.new_round_ns, ns),
                ..self
            },
            Stage::Propose => StepDurations { propose_ns: plus(self.propose_ns, ns), ..self },
            Stage::Prevote => StepDurations { prevote_ns: plus(self.prevote_ns, ns), ..self },
            Stage::Precommit => StepDurations {
                precommit_ns: plus(self.precommit_ns, ns),
                ..self
            },
            Stage::Commit => StepDurations { commit_ns: plus(self.commit_ns, ns), ..self },
        }
    }

    /// The time spent in all stages together.
    pub open spec fn total(self) -> int {
        self.new_height_ns + self.new_round_ns + self.propose_ns + self.prevote_ns
            + self.precommit_ns + self.commit_ns
    }

    /// The time spent in a stage.
    pub fn get(&self, stage: Stage) -> (r: u64)
        ensures
            r == self.of(stage),
    {
        match stage {
            Stage::NewHeight => self.new_height_ns,
            Stage::NewRound => self.new_round_ns,
            Stage::Propose => self.propose_ns,
            Stage::Prevote => self.prevote_ns,
            Stage::Precommit => self.precommit_ns,
            Stage::Commit => self.commit_ns,
        }
    }

    /// Adds time to the stage that a step's name means. A name that means none
    /// changes nothing.
    pub fn add_step(&mut self, step_name: &str, duration_ns: u64) -> (known: bool)
        ensures
            known == (stage_of(step_name@) is Some),
            *final(self) == match stage_of(step_name@) {
                Some(stage) => old(self).with(stage, duration_ns),
                None => *old(self),
            },
    {
        match normalize_step_name(step_name) {
            Some(Stage::NewHeight) => {
                self.new_height_ns = self.new_height_ns.saturating_add(duration_ns);
            },
            Some(Stage::NewRound) => {
                self.new_round_ns = self.new_round_ns.saturating_add(duration_ns);
            },
            Some(Stage::Propose) => {
                self.propose_ns = self.propose_ns.saturating_add(duration_ns);
            },
            Some(Stage::Prevote) => {
                self.prevote_ns = self.prevote_ns.saturating_add(duration_ns);
            },
            Some(Stage::Precommit) => {
                self.precommit_ns = self.precommit_ns.saturating_add(duration_ns);
            },
            Some(Stage::Commit) => {
                self.commit_ns = self.commit_ns.saturating_add(duration_ns);
            },
            None => {
                return false;
            },
        }
        true
    }
}

/// The time from one point to another, or none if that lies before it.
pub open spec fn elapsed(from: u64, to: u64) -> u64 {
    if to >= from {
        (to - from) as u64
    } else {
        0
    }
}

fn time_since(from: u64, to: u64) -> (r: u64)
    ensures
        r == elapsed(from, to),
{
    if to >= from {
        to - from
    } else {
        0
    }
}

/// A block whose stages are being timed.
#[derive(Clone, Copy, Debug, PartialEq, Eq, Structural)]
pub struct TrackedBlock {
    pub height: u64,
    pub started_at: u64,
    pub last_step_at: u64,
    pub step_durations: StepDurations,
}

/// A block that starts now.
pub open spec fn tracked_from(height: u64, at: u64) -> TrackedBlock {
    TrackedBlock { height, started_at: at, last_step_at: at, step_durations: no_time() }
}

/// A block after a step that ended now.
pub open spec fn recorded(block: TrackedBlock, stage: Option<Stage>, at: u64) -> TrackedBlock {
    TrackedBlock {
        last_step_at: at,
        step_durations: match stage {
            Some(s) => block.step_durations.with(s, elapsed(block.last_step_at, at)),
            None => block.step_durations,
        },
        ..block
    }
}

impl TrackedBlock {
    pub fn new(height: u64, started_at: u64) -> (r: Self)
        ensures
            r == tracked_from(height, started_at),
    {
        TrackedBlock {
            height,
            started_at,
            last_step_at: started_at,
            step_durations: StepDurations::default(),
        }
    }

    /// The report of this block.
    pub fn into_report(self, total_started_at: u64, finished_at: u64) -> (r: BlockPerformanceReport)
        ensures
            r.height == self.height,
            r.total_ns == elapsed(total_started_at, finished_at),
            r.step_durations == self.step_durations,
    {
        BlockPerformanceReport {
            height: self.height,
            total_ns: time_since(total_started_at, finished_at),
            step_durations: self.step_durations,
        }
    }
}

/// How long a block took.
#[derive(Clone, Copy, Debug, PartialEq, Eq, Structural)]
pub struct BlockPerformanceReport {
    pub height: u64,
    pub total_ns: u64,
    pub step_durations: StepDurations,
}

/// Nanoseconds in whole microseconds, rounded to the nearest one, and from half
/// way to the even one.
pub open spec fn micros(ns: u64) -> nat {
    let whole = ns as nat / 1000;
    let rest = ns % 1000;
    if rest > 500 || (rest == 500 && whole % 2 == 1) {
        whole + 1
    } else {
        whole
    }
}

/// The last three digits of a number.
pub open spec fn three_digits(n: nat) -> Seq<char> {
    seq![
        text::digit_char(n / 100 % 10),
        text::digit_char(n / 10 % 10),
        text::digit_char(n % 10),
    ]
}

/// Nanoseconds as milliseconds with three decimals.
pub open spec fn millis_text(ns: u64) -> Seq<char> {
    text::decimal_text(micros(ns) / 1000) + "."@ + three_digits(micros(ns) % 1000)
}

fn push_digit(out: &mut String, d: u8)
    requires
        d < 10,
    ensures
        final(out)@ == old(out)@.push(text::digit_char(d as nat)),
{
    out.push((48u8 + d) as char);
}

/// Writes nanoseconds as milliseconds with three decimals.
fn push_millis(out: &mut String, ns: u64)
    ensures
        final(out)@ == old(out)@ + millis_text(ns),
{
    let whole: u64 = ns / 1000;
    let rest: u64 = ns % 1000;
    let rounded: u64 = if rest > 500 || (rest == 500 && whole % 2 == 1) {
        whole + 1
    } else {
        whole
    };
    assert(rounded as nat == micros(ns));
    let ghost start = out@;
    text::push_decimal(out, rounded / 1000);
    out.append(".");
    let decimals: u64 = rounded % 1000;
    let ghost head = out@;
    push_digit(out, (decimals / 100) as u8);
    push_digit(out, (decimals / 10 % 10) as u8);
    push_digit(out, (decimals % 10) as u8);
    assert(out@ =~= head + three_digits(decimals as nat));
    assert(out@ =~= start + millis_text(ns));
}

/// One entry of the summary of stages.
pub open spec fn summary_entry(stage: Stage, ns: u64) -> Seq<char> {
    stage.title() + ":"@ + millis_text(ns)
}

/// A summary with one more entry, if the stage took any time.
pub open spec fn summary_with(so_far: Seq<char>, stage: Stage, ns: u64) -> Seq<char> {
    if ns == 0 {
        so_far
    } else if so_far.len() == 0 {
        summary_entry(stage, ns)
    } else {
        so_far + ","@ + summary_entry(stage, ns)
    }
}

/// The stages that took any time, in order, with their times.
pub open spec fn summary_of(d: StepDurations) -> Seq<char> {
    let s = summary_with(Seq::empty(), Stage::NewHeight, d.new_height_ns);
    let s = summary_with(s, Stage::NewRound, d.new_round_ns);
    let s = summary_with(s, Stage::Propose, d.propose_ns);
    let s = summary_with(s, Stage::Prevote, d.prevote_ns);
    let s = summary_with(s, Stage::Precommit, d.precommit_ns);
    summary_with(s, Stage::Commit, d.commit_ns)
}

fn push_entry(out: &mut String, stage: Stage, ns: u64)
    ensures
        final(out)@ == summary_with(old(out)@, stage, ns),
{
    if ns == 0 {
        return;
    }
    let ghost start = out@;
    if out.as_str().unicode_len() > 0 {
        out.append(",");
    }
    let ghost head = out@;
    out.append(stage.name());
    out.append(":");
    push_millis(out, ns);
    assert(out@ =~= head + summary_entry(stage, ns));
    assert(start.len() == 0 ==> out@ =~= summary_entry(stage, ns));
}

impl BlockPerformanceReport {
    /// The time spent in the stage that a name means; none if it means none.
    pub fn stage_latency_ns(&self, stage_name: &str) -> (r: u64)
        ensures
            r == match stage_of(stage_name@) {
                Some(stage) => self.step_durations.of(stage),
                None => 0,
            },
    {
        match normalize_step_name(stage_name) {
            Some(stage) => self.step_durations.get(stage),
            None => 0,
        }
    }

    /// The stages that took any time, with their times in milliseconds.
    pub fn stage_summary(&self) -> (out: String)
        ensures
            out@ == summary_of(self.step_durations),
    {
        let mut out: String = String::from_str("");
        proof {
            reveal_strlit("");
            assert(out@ =~= Seq::<char>::empty());
        }
        push_entry(&mut out, Stage::NewHeight, self.step_durations.new_height_ns);
        push_entry(&mut out, Stage::NewRound, self.step_durations.new_round_ns);
        push_entry(&mut out, Stage::Propose, self.step_durations.propose_ns);
        push_entry(&mut out, Stage::Prevote, self.step_durations.prevote_ns);
        push_entry(&mut out, Stage::Precommit, self.step_durations.precommit_ns);
        push_entry(&mut out, Stage::Commit, self.step_durations.commit_ns);
        out
    }

    /// The line that is logged for the block.
    pub open spec fn line(self) -> Seq<char> {
        "msg=consensus height="@ + text::decimal_text(self.height as nat) + " new_height="@
            + millis_text(self.step_durations.new_height_ns) + " new_round="@ + millis_text(
            self.step_durations.new_round_ns,
        ) + " propose="@ + millis_text(self.step_durations.propose_ns) + " prevote="@
            + millis_text(self.step_durations.prevote_ns) + " precommit="@ + millis_text(
            self.step_durations.precommit_ns,
        ) + " commit="@ + millis_text(self.step_durations.commit_ns) + " total="@ + millis_text(
            self.total_ns,
        )
    }

    /// The line to log for the block.
    pub fn print_summary(&self) -> (out: String)
        ensures
            out@ == self.line(),
    {
        let mut out: String = String::from_str("msg=consensus height=");
        text::push_decimal(&mut out, self.height);
        out.append(" new_height=");
        push_millis(&mut out, self.step_durations.new_height_ns);
        out.append(" new_round=");
        push_millis(&mut out, self.step_durations.new_round_ns);
        out.append(" propose=");
        push_millis(&mut out, self.step_durations.propose_ns);
        out.append(" prevote=");
        push_millis(&mut out, self.step_durations.prevote_ns);
        out.append(" precommit=");
        push_millis(&mut out, self.step_durations.precommit_ns);
        out.append(" commit=");
        push_millis(&mut out, self.step_durations.commit_ns);
        out.append(" total=");
        push_millis(&mut out, self.total_ns);
        out
    }
}

/// Times blocks from one commit to the next.
#[derive(Clone, Copy, Debug, PartialEq, Eq, Structural)]
pub struct BlockPerformanceMonitor {
    pub block_started_at: Option<u64>,
    pub current: Option<TrackedBlock>,
}

/// The monitor after a step.
pub open spec fn after_step(
    m: BlockPerformanceMonitor,
    height: u64,
    stage: Option<Stage>,
    at: u64,
) -> BlockPerformanceMonitor {
    BlockPerformanceMonitor {
        block_started_at: match m.block_started_at {
            Some(t) => Some(t),
            None => Some(at),
        },
        current: match m.current {
            None => Some(tracked_from(height, at)),
            Some(block) => Some(
                if block.height == height {
                    recorded(block, stage, at)
                } else {
                    block
                },
            ),
        },
    }
}

/// The report of a block that is committed now.
pub open spec fn report_of(
    m: BlockPerformanceMonitor,
    height: u64,
    finished_at: u64,
) -> BlockPerformanceReport {
    BlockPerformanceReport {
        height,
        total_ns: match m.block_started_at {
            Some(t) => elapsed(t, finished_at),
            None => 0,
        },
        step_durations: match m.current {
            Some(block) => if block.height == height {
                block.step_durations
            } else {
                no_time()
            },
            None => no_time(),
        },
    }
}

/// The monitor after a commit: the next block starts now.
pub open spec fn after_flush(height: u64, finished_at: u64) -> BlockPerformanceMonitor {
    BlockPerformanceMonitor {
        block_started_at: Some(finished_at),
        current: Some(
            tracked_from(
                if height == u64::MAX {
                    u64::MAX
                } else {
                    (height + 1) as u64
                },
                finished_at,
            ),
        ),
    }
}

impl BlockPerformanceMonitor {
    /// A monitor whose first block started at a given time, if it did.
    pub fn with_start(block_started_at: Option<u64>) -> (r: Self)
        ensures
            r.block_started_at == block_started_at,
            r.current is None,
    {
        BlockPerformanceMonitor { block_started_at, current: None }
    }

    /// Records that a step of a block ended. The result says whether its time
    /// was added to a stage: not for the first step of all, for another block
    /// than the tracked one, or for a name that means no stage.
    pub fn record_step(&mut self, height: u64, step_name: &str, at: u64) -> (added: bool)
        ensures
            *final(self) == after_step(*old(self), height, stage_of(step_name@), at),
            added == {
                &&& old(self).current matches Some(block)
                &&& block.height == height
                &&& stage_of(step_name@) is Some
            },
    {
        if self.block_started_at.is_none() {
            self.block_started_at = Some(at);
        }
        match self.current {
            None => {
                self.current = Some(TrackedBlock::new(height, at));
                false
            },
            Some(block) => {
                if block.height != height {
                    return false;
                }
                let mut durations: StepDurations = block.step_durations;
                let added: bool = durations.add_step(
                    step_name,
                    time_since(block.last_step_at, at),
                );
                self.current = Some(
                    TrackedBlock { last_step_at: at, step_durations: durations, ..block },
                );
                added
            },
        }
    }

    /// Ends a block and starts the next one. The report is to be logged.
    pub fn flush_block(&mut self, height: u64, finished_at: u64) -> (report:
        BlockPerformanceReport)
        ensures
            report == report_of(*old(self), height, finished_at),
            *final(self) == after_flush(height, finished_at),
    {
        let started_at: u64 = match self.block_started_at {
            Some(t) => t,
            None => finished_at,
        };
        let step_durations: StepDurations = match self.current {
            Some(block) => if block.height == height {
                block.step_durations
            } else {
                StepDurations::default()
            },
            None => StepDurations::default(),
        };
        let report = BlockPerformanceReport {
            height,
            total_ns: time_since(started_at, finished_at),
            step_durations,
        };
        self.block_started_at = Some(finished_at);
        self.current = Some(TrackedBlock::new(height.saturating_add(1), finished_at));
        report
    }

    /// The height of the block that is being timed.
    pub fn current_block_height(&self) -> (r: Option<u64>)
        ensures
            r == match self.current {
                Some(block) => Some(block.height),
                None => None,
            },
    {
        match self.current {
            Some(block) => Some(block.height),
            None => None,
        }
    }
}

/// Records a step in the shared monitor.
pub fn record_step(
    monitor: &mut BlockPerformanceMonitor,
    height: u64,
    step_name: &str,
    at: u64,
) -> (added: bool)
    ensures
        *final(monitor) == after_step(*old(monitor), height, stage_of(step_name@), at),
        added == {
            &&& old(monitor).current matches Some(block)
            &&& block.height == height
            &&& stage_of(step_name@) is Some
        },
{
    monitor.record_step(height, step_name, at)
}

/// Ends a block in the shared monitor; the line is to be logged.
pub fn flush_block(monitor: &mut BlockPerformanceMonitor, height: u64, at: u64) -> (line: String)
    ensures
        line@ == report_of(*old(monitor), height, at).line(),
        *final(monitor) == after_flush(height, at),
{
    let report: BlockPerformanceReport = monitor.flush_block(height, at);
    report.print_summary()
}

/// The height of the block that the shared monitor times.
pub fn current_block_height(monitor: &BlockPerformanceMonitor) -> (r: Option<u64>)
    ensures
        r == match monitor.current {
            Some(block) => Some(block.height),
            None => None,
        },
{
    monitor.current_block_height()
}

/// A block's total runs from the commit before it to its own commit, whatever
/// steps were recorded in between.
pub proof fn total_runs_from_commit_to_commit(
    first: u64,
    committed_at: u64,
    step_height: u64,
    stage: Option<Stage>,
    step_at: u64,
    second: u64,
    finished_at: u64,
)
    ensures
        report_of(
            after_step(after_flush(first, committed_at), step_height, stage, step_at),
            second,
            finished_at,
        ).total_ns == elapsed(committed_at, finished_at),
        report_of(after_flush(first, committed_at), second, finished_at).total_ns == elapsed(
            committed_at,
            finished_at,
        ),
{
}

/// As long as time does not run backwards, the stages of a block never take
/// more time together than went by, and a step with a known name accounts for
/// all the time since the step before.
pub proof fn stages_account_for_time(block: TrackedBlock, stage: Option<Stage>, at: u64)
    requires
        block.started_at <= block.last_step_at <= at,
        block.step_durations.total() <= block.last_step_at - block.started_at,
    ensures
        recorded(block, stage, at).started_at <= recorded(block, stage, at).last_step_at,
        recorded(block, stage, at).step_durations.total() <= recorded(block, stage, at).last_step_at
            - recorded(block, stage, at).started_at,
        stage is Some ==> recorded(block, stage, at).step_durations.total()
            == block.step_durations.total() + (at - block.last_step_at),
{
}

/// Whether two characters of a name count as the same one: letters of either
/// case, and a space, a hyphen or an underscore.
pub open spec fn same_in_names(a: char, b: char) -> bool {
    ||| a == b
    ||| 'A' <= a && a <= 'Z' && b as int == a as int + 32
    ||| (a == ' ' || a == '-') && b == '_'
}

/// A stage is known by its name, with a space, a hyphen or an underscore
/// between its words and in letters of either case; white space around it does
/// not count.
pub proof fn stages_are_known_by_name(
    stage: Stage,
    name: Seq<char>,
    before: Seq<char>,
    after: Seq<char>,
)
    requires
        name.len() == stage.title().len(),
        forall|i: int| 0 <= i < name.len() ==> same_in_names(#[trigger] name[i], stage.title()[i]),
        forall|i: int| 0 <= i < before.len() ==> text::is_white(#[trigger] before[i]),
        forall|i: int| 0 <= i < after.len() ==> text::is_white(#[trigger] after[i]),
    ensures
        stage_of(before + name + after) == Some(stage),
{
    let title = stage.title();
    let all = before + name + after;
    lemma_titles();
    let ends = text::trimming_cuts_white_space(all);
    assert(same_in_names(name[0], title[0]));
    assert(same_in_names(name[name.len() - 1], title[name.len() - 1]));
    assert(all[before.len() as int] == name[0]);
    assert(all[before.len() + name.len() - 1] == name[name.len() - 1]);
    assert(!text::is_white(name[0]) && !text::is_white(name[name.len() - 1]));
    assert(ends.0 <= before.len() && before.len() + name.len() <= ends.1);
    if ends.0 < before.len() {
        assert(all[ends.0] == before[ends.0]);
    }
    if ends.1 > before.len() + name.len() {
        assert(all[ends.1 - 1] == after[ends.1 - 1 - before.len() - name.len()]);
    }
    assert(all.subrange(ends.0, ends.1) =~= name);
    assert forall|i: int| 0 <= i < name.len() implies #[trigger] normal_name(all)[i] == title[i] by {
        assert(same_in_names(name[i], title[i]));
        assert(plain_title_char(title[i]));
    }
    assert(normal_name(all) =~= title);
    assert(Stage::NewHeight.title() == "new_height"@);
    assert(Stage::NewRound.title() == "new_round"@);
    assert(Stage::Propose.title() == "propose"@);
    assert(Stage::Prevote.title() == "prevote"@);
    assert(Stage::Precommit.title() == "precommit"@);
    assert(Stage::Commit.title() == "commit"@);
}

spec fn plain_title_char(c: char) -> bool {
    ('a' <= c && c <= 'z') || c == '_'
}

proof fn lemma_titles()
    ensures
        forall|stage: Stage| #[trigger]
            stage.title().len() > 0 && stage.title()[0] != '_' && stage.title().last() != '_' && (
            forall|i: int|
                0 <= i < stage.title().len() ==> plain_title_char(#[trigger] stage.title()[i])),
        forall|a: Stage, b: Stage| #[trigger] a.title() == #[trigger] b.title() ==> a == b,
        forall|stage: Stage| #[trigger] stage.title() != "newheight"@ && stage.title()
            != "newround"@,
{
    reveal_strlit("new_height");
    reveal_strlit("new_round");
    reveal_strlit("propose");
    reveal_strlit("prevote");
    reveal_strlit("precommit");
    reveal_strlit("commit");
    reveal_strlit("newheight");
    reveal_strlit("newround");
    assert("newheight"@[3] != "new_round"@[3]);
    assert("newround"@[3] != "new_round"@[3]);
    assert("propose"@[2] != "prevote"@[2]);
    assert forall|a: Stage, b: Stage| #[trigger] a.title() == #[trigger] b.title() implies a
        == b by {
        assert(a.title().len() == b.title().len());
        assert(a.title()[2] == b.title()[2]);
    }
}

/// A name that no stage goes by is none's: it has to be one of the titles, or
/// that of a new height or round without the gap.
pub proof fn other_names_are_no_stages(name: Seq<char>)
    ensures
        stage_of(name) matches Some(stage) ==> normal_name(name) == stage.title() || (stage
            == Stage::NewHeight && normal_name(name) == "newheight"@) || (stage == Stage::NewRound
            && normal_name(name) == "newround"@),
        normal_name(name) == "newheight"@ ==> stage_of(name) == Some(Stage::NewHeight),
        normal_name(name) == "newround"@ ==> stage_of(name) == Some(Stage::NewRound),
        normal_name(name).len() == text::trim_of(name).len(),
        forall|i: int|
            0 <= i < normal_name(name).len() ==> same_in_names(
                text::trim_of(name)[i],
                #[trigger] normal_name(name)[i],
            ),
{
    reveal_strlit("newheight");
    reveal_strlit("new_height");
    reveal_strlit("newround");
    assert("newround"@.len() != "newheight"@.len() && "newround"@.len() != "new_height"@.len());
}

/// Adding time to a stage adds it to that stage alone, up to the largest time
/// there is.
pub proof fn time_goes_to_its_stage(d: StepDurations, stage: Stage, ns: u64, other: Stage)
    ensures
        stage == other && d.of(stage) + ns <= u64::MAX ==> d.with(stage, ns).of(other) == d.of(
            stage,
        ) + ns,
        stage == other && d.of(stage) + ns > u64::MAX ==> d.with(stage, ns).of(other) == u64::MAX,
        stage != other ==> d.with(stage, ns).of(other) == d.of(other),
        d.of(Stage::NewHeight) == d.new_height_ns,
        d.of(Stage::NewRound) == d.new_round_ns,
        d.of(Stage::Propose) == d.propose_ns,
        d.of(Stage::Prevote) == d.prevote_ns,
        d.of(Stage::Precommit) == d.precommit_ns,
        d.of(Stage::Commit) == d.commit_ns,
        no_time().of(other) == 0,
{
}

/// A step counts for the tracked block alone: the first one starts tracking its
/// height, a step of that height gives the time since the last one to its
/// stage, and a step of any other height changes nothing. When a block started
/// is noted once.
pub proof fn steps_count_for_their_block(
    m: BlockPerformanceMonitor,
    height: u64,
    stage: Option<Stage>,
    at: u64,
    other: Stage,
)
    ensures
        ({
            let after = after_step(m, height, stage, at);
            &&& m.block_started_at is Some ==> after.block_started_at == m.block_started_at
            &&& m.block_started_at is None ==> after.block_started_at == Some(at)
            &&& m.current is None ==> (after.current matches Some(b) && b.height == height
                && b.started_at == at && b.last_step_at == at && b.step_durations.of(other) == 0)
            &&& m.current matches Some(b) ==> {
                &&& b.height != height ==> after.current == Some(b)
                &&& b.height == height ==> (after.current matches Some(c) && {
                    &&& c.height == height
                    &&& c.started_at == b.started_at
                    &&& c.last_step_at == at
                    &&& stage != Some(other) ==> c.step_durations.of(other) == b.step_durations.of(
                        other,
                    )
                    &&& stage == Some(other) && at < b.last_step_at ==> c.step_durations.of(other)
                        == b.step_durations.of(other)
                    &&& stage == Some(other) && at >= b.last_step_at && b.step_durations.of(other)
                        + (at - b.last_step_at) <= u64::MAX ==> c.step_durations.of(other)
                        == b.step_durations.of(other) + (at - b.last_step_at)
                    &&& stage == Some(other) && at >= b.last_step_at && b.step_durations.of(other)
                        + (at - b.last_step_at) > u64::MAX ==> c.step_durations.of(other)
                        == u64::MAX
                })
            }
        }),
{
    if let Some(b) = m.current {
        if let Some(s) = stage {
            time_goes_to_its_stage(b.step_durations, s, elapsed(b.last_step_at, at), other);
        }
    }
}

/// The report of a block says how long the block took, and how long its stages
/// did if it was the one tracked; after it the next height is tracked from the
/// moment that the block was finished.
pub proof fn reports_tell_the_tracked_block(
    m: BlockPerformanceMonitor,
    height: u64,
    finished_at: u64,
    stage: Stage,
)
    ensures
        ({
            let report = report_of(m, height, finished_at);
            let after = after_flush(height, finished_at);
            &&& report.height == height
            &&& m.block_started_at is None ==> report.total_ns == 0
            &&& m.block_started_at matches Some(t) ==> report.total_ns == if finished_at >= t {
                finished_at - t
            } else {
                0
            }
            &&& m.current matches Some(b) ==> b.height == height ==> report.step_durations
                == b.step_durations
            &&& !(m.current matches Some(b) && b.height == height) ==> report.step_durations.of(
                stage,
            ) == 0
            &&& after.block_started_at == Some(finished_at)
            &&& after.current matches Some(b) && b.started_at == finished_at && b.last_step_at
                == finished_at && b.step_durations.of(stage) == 0 && b.height == if height
                < u64::MAX {
                height + 1
            } else {
                u64::MAX as int
            }
        }),
{
}

/// Microseconds are the nearest to the nanoseconds, the even ones where two are
/// as near.
pub proof fn microseconds_are_the_nearest(ns: u64)
    ensures
        -500 <= 1000 * micros(ns) - ns <= 500,
        1000 * micros(ns) - ns == 500 || ns - 1000 * micros(ns) == 500 ==> micros(ns) % 2 == 0,
{
}

/// Milliseconds are written with three digits behind the point, and together
/// the digits are the microseconds.
pub proof fn milliseconds_have_three_decimals(ns: u64)
    ensures
        ({
            let s = millis_text(ns);
            let n = s.len() - 4;
            &&& n >= 1
            &&& s.take(n) == text::decimal_text(micros(ns) / 1000)
            &&& s[n] == '.'
            &&& forall|i: int| n < i < n + 4 ==> '0' <= #[trigger] s[i] && s[i] <= '9'
            &&& (s[n + 1] as int - 48) * 100 + (s[n + 2] as int - 48) * 10 + (s[n + 3] as int - 48)
                == micros(ns) % 1000
        }),
{
    reveal_strlit(".");
    let s = millis_text(ns);
    let whole = text::decimal_text(micros(ns) / 1000);
    text::lemma_decimal_text(micros(ns) / 1000);
    assert(s.take(s.len() - 4) =~= whole);
}

/// Two parts of a summary behind one another, with a comma where both say
/// something.
pub open spec fn joined(a: Seq<char>, b: Seq<char>) -> Seq<char> {
    if a.len() == 0 {
        b
    } else if b.len() == 0 {
        a
    } else {
        a + seq![','] + b
    }
}

/// A summary names the stages that took time, in their order and with commas
/// between them: what it says with the last of its stages is what it says
/// without it, joined with the name and the time of that stage.
pub proof fn summaries_name_the_stages_in_order(d: StepDurations)
    ensures
        ({
            let d5 = StepDurations { commit_ns: 0, ..d };
            let d4 = StepDurations { precommit_ns: 0, ..d5 };
            let d3 = StepDurations { prevote_ns: 0, ..d4 };
            let d2 = StepDurations { propose_ns: 0, ..d3 };
            let d1 = StepDurations { new_round_ns: 0, ..d2 };
            &&& summary_of(d) == joined(summary_of(d5), one_stage("commit"@, d.commit_ns))
            &&& summary_of(d5) == joined(summary_of(d4), one_stage("precommit"@, d.precommit_ns))
            &&& summary_of(d4) == joined(summary_of(d3), one_stage("prevote"@, d.prevote_ns))
            &&& summary_of(d3) == joined(summary_of(d2), one_stage("propose"@, d.propose_ns))
            &&& summary_of(d2) == joined(summary_of(d1), one_stage("new_round"@, d.new_round_ns))
            &&& summary_of(d1) == one_stage("new_height"@, d.new_height_ns)
        }),
{
    reveal_strlit(":");
    reveal_strlit(",");
    assert(":"@ =~= seq![':']);
    assert(","@ =~= seq![',']);
}

/// What a summary says of a stage that took some time: its name, a colon, and
/// the milliseconds; nothing of one that took none.
pub open spec fn one_stage(title: Seq<char>, ns: u64) -> Seq<char> {
    if ns == 0 {
        Seq::empty()
    } else {
        title + seq![':'] + millis_text(ns)
    }
}

/// A report is one line: the height, each stage with its milliseconds in the
/// order of the stages, and the total.
pub proof fn reports_are_one_line(r: BlockPerformanceReport)
    ensures
        ({
            let d = r.step_durations;
            r.line() == "msg=consensus height="@ + text::decimal_text(r.height as nat)
                + " new_height="@ + millis_text(d.of(Stage::NewHeight)) + " new_round="@
                + millis_text(d.of(Stage::NewRound)) + " propose="@ + millis_text(
                d.of(Stage::Propose),
            ) + " prevote="@ + millis_text(d.of(Stage::Prevote)) + " precommit="@ + millis_text(
                d.of(Stage::Precommit),
            ) + " commit="@ + millis_text(d.of(Stage::Commit)) + " total="@ + millis_text(
                r.total_ns,
            )
        }),
{
}

} // verus!
