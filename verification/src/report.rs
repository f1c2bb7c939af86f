//! The report of a run: the finished operations, the totals of the phases
//! that ended, and the total of the run; and the text that shows it.

use crate::metrics::{delta_views, DeltaView, MetricsDelta};
use vstd::prelude::*;

verus! {

/// The character for the digit `d`, which is below ten.
pub open spec fn digit(d: nat) -> char {
    if d == 0 {
        '0'
    } else if d == 1 {
        '1'
    } else if d == 2 {
        '2'
    } else if d == 3 {
        '3'
    } else if d == 4 {
        '4'
    } else if d == 5 {
        '5'
    } else if d == 6 {
        '6'
    } else if d == 7 {
        '7'
    } else if d == 8 {
        '8'
    } else {
        '9'
    }
}

/// `n` in decimal digits, without leading zeros.
pub open spec fn decimal(n: nat) -> Seq<char>
    decreases n,
{
    if n < 10 {
        seq![digit(n)]
    } else {
        decimal(n / 10).push(digit(n % 10))
    }
}

/// `n` hundredths in decimal digits: the whole part, a point, and two digits.
pub open spec fn hundredths(n: nat) -> Seq<char> {
    decimal(n / 100).push('.').push(digit((n / 10) % 10)).push(digit(n % 10))
}

/// The text that shows one delta: a headline with its name, a line for each
/// figure, a line for the processor use, and a closing line.
pub open spec fn block_text(delta: DeltaView) -> Seq<char> {
    "============= "@ + delta.name + " Metrics =============\nWall Clock Time: "@ + decimal(
        delta.cost.wall_clock_time,
    ) + " ns\nUser time: "@ + decimal(delta.cost.user_time) + " ns\nSystem time: "@ + decimal(
        delta.cost.system_time,
    ) + " ns\nMax RSS: "@ + decimal(delta.cost.max_resident_memory) + " bytes\nCPU Usage: "@
        + hundredths(delta.cost.cpu_usage_hundredths())
        + "%\n=======================================\n"@
}

/// The texts of the deltas of a list, one after the other.
pub open spec fn blocks_text(deltas: Seq<DeltaView>) -> Seq<char>
    decreases deltas.len(),
{
    if deltas.len() == 0 {
        Seq::empty()
    } else {
        blocks_text(deltas.drop_last()) + block_text(deltas.last())
    }
}

/// The text of the phases' part of a report: nothing where there is no phase
/// to show, else the phases' blocks between a headline and a closing line.
pub open spec fn phase_section_text(phases: Seq<DeltaView>) -> Seq<char> {
    if phases.len() == 0 {
        Seq::empty()
    } else {
        "\n=========== Phase Metrics ===========\n"@ + blocks_text(phases)
            + "====================================\n\n"@
    }
}

/// A `Report` as a mathematical value.
pub struct ReportView {
    pub operations: Seq<DeltaView>,
    pub phases: Seq<DeltaView>,
    pub total: DeltaView,
}

impl ReportView {
    /// The text of the report: the operations' blocks, the phases' part, and
    /// the block of the run's total.
    pub open spec fn text(self) -> Seq<char> {
        blocks_text(self.operations) + phase_section_text(self.phases) + block_text(self.total)
    }
}

/// What a run has to report: the finished operations in the order in which
/// they finished, the totals of the phases that ended in the order in which
/// the phases were first started, and the total of the run.
#[derive(Debug, PartialEq, Eq)]
pub struct Report {
    pub operations: Vec<MetricsDelta>,
    pub phases: Vec<MetricsDelta>,
    pub total: MetricsDelta,
}

impl View for Report {
    type V = ReportView;

    open spec fn view(&self) -> ReportView {
        ReportView {
            operations: delta_views(self.operations@),
            phases: delta_views(self.phases@),
            total: self.total@,
        }
    }
}

/// The text of one digit.
fn digit_text(d: u8) -> (text: &'static str)
    requires
        d < 10,
    ensures
        text@ == seq![digit(d as nat)],
{
    proof {
        reveal_strlit("0");
        reveal_strlit("1");
        reveal_strlit("2");
        reveal_strlit("3");
        reveal_strlit("4");
        reveal_strlit("5");
        reveal_strlit("6");
        reveal_strlit("7");
        reveal_strlit("8");
        reveal_strlit("9");
    }
    if d == 0 {
        "0"
    } else if d == 1 {
        "1"
    } else if d == 2 {
        "2"
    } else if d == 3 {
        "3"
    } else if d == 4 {
        "4"
    } else if d == 5 {
        "5"
    } else if d == 6 {
        "6"
    } else if d == 7 {
        "7"
    } else if d == 8 {
        "8"
    } else {
        "9"
    }
}

/// Appends `n` in decimal digits.
fn append_decimal(text: &mut String, n: u128)
    ensures
        final(text)@ == old(text)@ + decimal(n as nat),
    decreases n,
{
    if n >= 10 {
        append_decimal(text, n / 10);
    }
    text.append(digit_text((n % 10) as u8));
}

/// Appends `n` hundredths: the whole part, a point, and two digits.
fn append_hundredths(text: &mut String, n: u128)
    ensures
        final(text)@ == old(text)@ + hundredths(n as nat),
{
    proof {
        reveal_strlit(".");
    }
    append_decimal(text, n / 100);
    text.append(".");
    text.append(digit_text(((n / 10) % 10) as u8));
    text.append(digit_text((n % 10) as u8));
}

/// Appends the text that shows `delta`.
fn append_block(text: &mut String, delta: &MetricsDelta)
    ensures
        final(text)@ == old(text)@ + block_text(delta@),
{
    text.append("============= ");
    text.append(delta.name.as_str());
    text.append(" Metrics =============\nWall Clock Time: ");
    append_decimal(text, delta.wall_clock_time as u128);
    text.append(" ns\nUser time: ");
    append_decimal(text, delta.user_time as u128);
    text.append(" ns\nSystem time: ");
    append_decimal(text, delta.system_time as u128);
    text.append(" ns\nMax RSS: ");
    append_decimal(text, delta.max_resident_memory as u128);
    text.append(" bytes\nCPU Usage: ");
    append_hundredths(text, delta.cpu_usage_hundredths());
    text.append("%\n=======================================\n");
}

/// Appends the texts of `deltas`, one after the other.
fn append_blocks(text: &mut String, deltas: &Vec<MetricsDelta>)
    ensures
        final(text)@ == old(text)@ + blocks_text(delta_views(deltas@)),
{
    let ghost views = delta_views(deltas@);
    let mut i: usize = 0;
    while i < deltas.len()
        invariant
            i <= deltas@.len(),
            views == delta_views(deltas@),
            text@ == old(text)@ + blocks_text(views.take(i as int)),
        decreases deltas@.len() - i,
    {
        append_block(text, &deltas[i]);
        proof {
            assert(views.take(i + 1).drop_last() =~= views.take(i as int));
        }
        i += 1;
    }
    proof {
        assert(views.take(i as int) =~= views);
    }
}

impl MetricsDelta {
    /// The text that shows this delta.
    pub fn render(&self) -> (text: String)
        ensures
            text@ == block_text(self@),
    {
        let mut text = String::new();
        append_block(&mut text, self);
        text
    }
}

impl Report {
    /// The text of the report: a block for each operation, then, where a
    /// phase has ended, the phases' blocks under a headline, then the block
    /// of the run's total.
    pub fn render(&self) -> (text: String)
        ensures
            text@ == self@.text(),
    {
        let mut text = String::new();
        append_blocks(&mut text, &self.operations);
        if !self.phases.is_empty() {
            text.append("\n=========== Phase Metrics ===========\n");
            append_blocks(&mut text, &self.phases);
            text.append("====================================\n\n");
        }
        append_block(&mut text, &self.total);
        text
    }
}

} // verus!
