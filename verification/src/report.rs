//! Rendering of the log lines: decimal numbers, left-padding, and the fixed
//! line shapes that a run prints.
//!
//! Every line is specified as a sequence of characters built from the inputs,
//! and each renderer is proved to produce exactly that sequence.

use vstd::prelude::*;

verus! {

/// The character for one decimal digit.
pub open spec fn digit_char(d: nat) -> char {
    if d == 0 {
        '0'
    } else if d == 1 {
        '1'
    } else if d == 2 {
        '2'
    } else if d == 3 {
        '3'
    } else if d == 4 {
        '4'
    } else if d == 5 {
        '5'
    } else if d == 6 {
        '6'
    } else if d == 7 {
        '7'
    } else if d == 8 {
        '8'
    } else {
        '9'
    }
}

/// The usual decimal rendering of a natural number, most significant digit
/// first, with no leading zeros (a lone `0` for zero).
pub open spec fn dec_rep(n: nat) -> Seq<char>
    decreases n,
{
    if n < 10 {
        seq![digit_char(n)]
    } else {
        dec_rep(n / 10).push(digit_char(n % 10))
    }
}

/// `n` space characters.
pub open spec fn spaces(n: nat) -> Seq<char>
    decreases n,
{
    if n == 0 {
        Seq::empty()
    } else {
        spaces((n - 1) as nat).push(' ')
    }
}

/// `s` left-padded with spaces to width `w`; `s` unchanged when already wide
/// enough.
pub open spec fn pad_left(s: Seq<char>, w: nat) -> Seq<char> {
    if s.len() >= w {
        s
    } else {
        spaces((w - s.len()) as nat) + s
    }
}

/// Appends the character of one decimal digit.
fn push_digit(out: &mut String, d: u64)
    requires
        d < 10,
    ensures
        final(out)@ == old(out)@.push(digit_char(d as nat)),
{
    let ghost pre = out@;
    if d == 0 {
        out.append("0");
        proof {
            reveal_strlit("0");
            assert(out@ =~= pre.push('0'));
        }
    } else if d == 1 {
        out.append("1");
        proof {
            reveal_strlit("1");
            assert(out@ =~= pre.push('1'));
        }
    } else if d == 2 {
        out.append("2");
        proof {
            reveal_strlit("2");
            assert(out@ =~= pre.push('2'));
        }
    } else if d == 3 {
        out.append("3");
        proof {
            reveal_strlit("3");
            assert(out@ =~= pre.push('3'));
        }
    } else if d == 4 {
        out.append("4");
        proof {
            reveal_strlit("4");
            assert(out@ =~= pre.push('4'));
        }
    } else if d == 5 {
        out.append("5");
        proof {
            reveal_strlit("5");
            assert(out@ =~= pre.push('5'));
        }
    } else if d == 6 {
        out.append("6");
        proof {
            reveal_strlit("6");
            assert(out@ =~= pre.push('6'));
        }
    } else if d == 7 {
        out.append("7");
        proof {
            reveal_strlit("7");
            assert(out@ =~= pre.push('7'));
        }
    } else if d == 8 {
        out.append("8");
        proof {
            reveal_strlit("8");
            assert(out@ =~= pre.push('8'));
        }
    } else {
        out.append("9");
        proof {
            reveal_strlit("9");
            assert(out@ =~= pre.push('9'));
        }
    }
}

/// Appends the decimal rendering of `n`.
pub fn push_dec(out: &mut String, n: u64)
    ensures
        final(out)@ == old(out)@ + dec_rep(n as nat),
    decreases n,
{
    let ghost pre = out@;
    if n >= 10 {
        push_dec(out, n / 10);
    }
    push_digit(out, n % 10);
    proof {
        assert(out@ =~= pre + dec_rep(n as nat));
    }
}

/// The decimal rendering of `n` as a fresh string.
pub fn dec_string(n: u64) -> (r: String)
    ensures
        r@ == dec_rep(n as nat),
{
    let mut s = String::new();
    push_dec(&mut s, n);
    proof {
        assert(s@ =~= dec_rep(n as nat));
    }
    s
}

/// Appends the decimal rendering of `n`, left-padded with spaces to `width`.
pub fn push_dec_padded(out: &mut String, n: u64, width: usize)
    ensures
        final(out)@ == old(out)@ + pad_left(dec_rep(n as nat), width as nat),
{
    let ghost pre = out@;
    let d = dec_string(n);
    let l = d.as_str().unicode_len();
    let mut k = l;
    while k < width
        invariant
            l == d@.len(),
            l <= k,
            l >= width ==> k == l,
            l < width ==> k <= width,
            out@ == pre + spaces((k - l) as nat),
        decreases width - k,
    {
        out.append(" ");
        proof {
            reveal_strlit(" ");
            assert(out@ =~= pre + spaces((k + 1 - l) as nat));
        }
        k = k + 1;
    }
    out.append(d.as_str());
    proof {
        assert(out@ =~= pre + pad_left(dec_rep(n as nat), width as nat));
    }
}

/// A message logged at the informational level: the level name, padded to a
/// fixed width inside brackets, then the message.
pub open spec fn info_line(msg: Seq<char>) -> Seq<char> {
    "[Info ] "@ + msg
}

/// A message logged at the error level.
pub open spec fn error_line(msg: Seq<char>) -> Seq<char> {
    "[Error] "@ + msg
}

/// The line announcing that a run has started checking for updates.
pub open spec fn checking_line() -> Seq<char> {
    info_line("Checking updates..."@)
}

/// The line announcing, once discovery is complete, how many files the run
/// will synchronize.
pub open spec fn synchronizing_line(total: nat) -> Seq<char> {
    info_line("Synchronizing "@ + dec_rep(total) + " files..."@)
}

/// The per-file completion line: position over total, a status label, and
/// the file's relative path.
pub open spec fn progress_line(finished: nat, total: nat, copied: bool, path: Seq<char>) -> Seq<
    char,
> {
    info_line(
        "["@ + pad_left(dec_rep(finished), 3) + " / "@ + dec_rep(total) + "] "@ + (if copied {
            "Downloaded"@
        } else {
            "Up to date"@
        }) + ": "@ + path + "."@,
    )
}

/// The per-file failure line: position over total, the failure description
/// with the error text, and the file's relative path.
pub open spec fn failure_line(finished: nat, total: nat, error: Seq<char>, path: Seq<char>) -> Seq<
    char,
> {
    error_line(
        "["@ + pad_left(dec_rep(finished), 3) + " / "@ + dec_rep(total) + "] Failed to download ("@
            + error + "): "@ + path + "."@,
    )
}

/// How one sync task ended, as the reporter hears of it: the file was
/// copied, it was already up to date, or the task failed for the given
/// reason.
pub enum TaskStatus {
    Copied,
    UpToDate,
    Failed(String),
}

/// The completion line for one task: a progress line for a copied or
/// up-to-date file, a failure line for a failed one.
pub open spec fn outcome_line(finished: nat, total: nat, path: Seq<char>, status: TaskStatus) -> Seq<
    char,
> {
    match status {
        TaskStatus::Copied => progress_line(finished, total, true, path),
        TaskStatus::UpToDate => progress_line(finished, total, false, path),
        TaskStatus::Failed(error) => failure_line(finished, total, error@, path),
    }
}

/// The usage line printed when no target directory was given.
pub open spec fn usage_line(program: Seq<char>) -> Seq<char> {
    "Usage: "@ + program + " <TARGET_DIR>"@
}

/// Renders the line announcing the start of a run.
pub fn render_checking_line() -> (r: String)
    ensures
        r@ == checking_line(),
{
    let mut s = String::from_str("[Info ] ");
    s.append("Checking updates...");
    proof {
        assert(s@ =~= checking_line());
    }
    s
}

/// Renders the line announcing the total file count.
pub fn render_synchronizing_line(total: u64) -> (r: String)
    ensures
        r@ == synchronizing_line(total as nat),
{
    let mut s = String::from_str("[Info ] ");
    s.append("Synchronizing ");
    push_dec(&mut s, total);
    s.append(" files...");
    proof {
        assert(s@ =~= synchronizing_line(total as nat));
    }
    s
}

/// Renders the completion line for one file.
pub fn render_progress_line(finished: u64, total: u64, copied: bool, path: &str) -> (r: String)
    ensures
        r@ == progress_line(finished as nat, total as nat, copied, path@),
{
    let mut s = String::from_str("[Info ] ");
    s.append("[");
    push_dec_padded(&mut s, finished, 3);
    s.append(" / ");
    push_dec(&mut s, total);
    s.append("] ");
    if copied {
        s.append("Downloaded");
    } else {
        s.append("Up to date");
    }
    s.append(": ");
    s.append(path);
    s.append(".");
    proof {
        assert(s@ =~= progress_line(finished as nat, total as nat, copied, path@));
    }
    s
}

/// Renders the failure line for one file.
pub fn render_failure_line(finished: u64, total: u64, error: &str, path: &str) -> (r: String)
    ensures
        r@ == failure_line(finished as nat, total as nat, error@, path@),
{
    let mut s = String::from_str("[Error] ");
    s.append("[");
    push_dec_padded(&mut s, finished, 3);
    s.append(" / ");
    push_dec(&mut s, total);
    s.append("] Failed to download (");
    s.append(error);
    s.append("): ");
    s.append(path);
    s.append(".");
    proof {
        assert(s@ =~= failure_line(finished as nat, total as nat, error@, path@));
    }
    s
}

/// Renders the completion line for one task, whatever its status.
pub fn render_outcome_line(finished: u64, total: u64, path: &str, status: &TaskStatus) -> (r:
    String)
    ensures
        r@ == outcome_line(finished as nat, total as nat, path@, *status),
{
    match status {
        TaskStatus::Copied => render_progress_line(finished, total, true, path),
        TaskStatus::UpToDate => render_progress_line(finished, total, false, path),
        TaskStatus::Failed(error) => render_failure_line(finished, total, error.as_str(), path),
    }
}

/// Renders the usage line for a program of the given name.
pub fn render_usage_line(program: &str) -> (r: String)
    ensures
        r@ == usage_line(program@),
{
    let mut s = String::from_str("Usage: ");
    s.append(program);
    s.append(" <TARGET_DIR>");
    proof {
        assert(s@ =~= usage_line(program@));
    }
    s
}

} // verus!
