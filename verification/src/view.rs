//! Text and sizes of the process table that do not depend on the terminal library.
use vstd::prelude::*;
use vstd::string::StringExecFns;
use crate::format::{bytes_text, format_bytes};
use crate::process::SortBy;

verus! {

/// Title of the process table for the sort order `by`.
pub fn process_list_title(by: SortBy) -> (title: &'static str)
    ensures
        by == SortBy::Cpu ==> title@ == "Processes (sorted by CPU)"@,
        by == SortBy::Memory ==> title@ == "Processes (sorted by Memory)"@,
        by == SortBy::Name ==> title@ == "Processes (sorted by Name)"@,
        by == SortBy::Pid ==> title@ == "Processes (sorted by PID)"@,
{
    match by {
        SortBy::Cpu => "Processes (sorted by CPU)",
        SortBy::Memory => "Processes (sorted by Memory)",
        SortBy::Name => "Processes (sorted by Name)",
        SortBy::Pid => "Processes (sorted by PID)",
    }
}

/// How many process rows fit in a table area `height` lines high: the header and its
/// bottom margin take two lines.
pub fn visible_process_rows(height: u16) -> (rows: usize)
    ensures
        rows == if height >= 2 {
            height - 2
        } else {
            0
        },
{
    height.saturating_sub(2) as usize
}

/// A used amount and a total, both as byte sizes: "1.00 KB / 2.00 KB".
pub fn format_used_total(used: u64, total: u64) -> (text: String)
    ensures
        text@ == bytes_text(used as nat) + seq![' ', '/', ' '] + bytes_text(total as nat),
{
    let mut text = format_bytes(used);
    proof {
        reveal_strlit(" / ");
    }
    text.append(" / ");
    let total_text = format_bytes(total);
    text.append(total_text.as_str());
    text
}

/// The network line: received and transmitted bytes per second, each behind an arrow.
pub fn format_throughput(received: u64, transmitted: u64) -> (text: String)
    ensures
        text@ == seq!['\u{2193}', ' '] + bytes_text(received as nat) + seq!['/', 's', ' ', ' ', '\u{2191}', ' ']
            + bytes_text(transmitted as nat) + seq![' ', '/', 's'],
{
    proof {
        reveal_strlit("\u{2193} ");
        reveal_strlit("/s  \u{2191} ");
        reveal_strlit(" /s");
    }
    let mut text = String::from_str("\u{2193} ");
    let received_text = format_bytes(received);
    text.append(received_text.as_str());
    text.append("/s  \u{2191} ");
    let transmitted_text = format_bytes(transmitted);
    text.append(transmitted_text.as_str());
    text.append(" /s");
    text
}

} // verus!
