//! What the window shows, as texts and numbers, in English and in Chinese.
use vstd::prelude::*;
use crate::launch::Platform;
use crate::number::push_decimal;
use crate::process::{total_memory, ProcessInfo};
use crate::supervisor::{same_optional_u64, same_snapshots, ToolSnapshot};
use crate::text::{
    chars_of, has_prefix, lower_of, same_text, split_of, text_of, trimmed,
};
use crate::time::short_stamp;
use crate::tool::{MemoryValue, ToolState};
#[allow(unused_imports)]
use crate::number::{decimal, decimal_digit};
#[allow(unused_imports)]
use crate::process::memory_sum;
#[allow(unused_imports)]
use crate::supervisor::all_show_same;
#[allow(unused_imports)]
use crate::text::{ascii_lowercase, split, starts_with, texts, trim};
#[allow(unused_imports)]
use crate::time::{is_offset, time_text, MAX_UNIX_MS};

verus! {

// ---------------------------------------------------------------------------
// Language
// ---------------------------------------------------------------------------

/// One of two texts.
pub open spec fn chosen(chinese: bool, english: Seq<char>, simplified_chinese: Seq<char>) -> Seq<
    char,
> {
    if chinese {
        simplified_chinese
    } else {
        english
    }
}

/// The text in the language that is shown.
pub fn tr<'a>(chinese: bool, english: &'a str, simplified_chinese: &'a str) -> (text: &'a str)
    ensures
        text@ == chosen(chinese, english@, simplified_chinese@),
{
    if chinese {
        simplified_chinese
    } else {
        english
    }
}

/// Whether a locale is a Chinese one: its language is `zh`, with or without a country, a script
/// or an encoding behind it.
pub open spec fn is_chinese(locale: Seq<char>) -> bool {
    let name = ascii_lowercase(trim(locale));
    ||| name == "zh"@
    ||| starts_with(name, "zh_"@)
    ||| starts_with(name, "zh-"@)
    ||| starts_with(name, "zh."@)
}

/// Whether a locale is a Chinese one.
pub fn locale_is_chinese(value: &str) -> (chinese: bool)
    ensures
        chinese == is_chinese(value@),
{
    let chars = chars_of(value);
    let name = lower_of(trimmed(chars.as_slice()));
    let text = text_of(name.as_slice());
    same_text(text.as_str(), "zh") || has_prefix(name.as_slice(), "zh_") || has_prefix(
        name.as_slice(),
        "zh-",
    ) || has_prefix(name.as_slice(), "zh.")
}

/// Whether one of some locales, with colons between them, is a Chinese one.
pub open spec fn has_chinese(value: Seq<char>) -> bool {
    exists|i: int| 0 <= i < split(value, ':').len() && is_chinese(#[trigger] split(value, ':')[i])
}

fn list_has_chinese(value: &str) -> (chinese: bool)
    ensures
        chinese == has_chinese(value@),
{
    let chars = chars_of(value);
    let pieces = split_of(chars.as_slice(), ':');
    let mut i: usize = 0;
    while i < pieces.len()
        invariant
            i <= pieces@.len(),
            texts(pieces@) == split(value@, ':'),
            forall|j: int| 0 <= j < i ==> !is_chinese(#[trigger] split(value@, ':')[j]),
        decreases pieces@.len() - i,
    {
        assert(split(value@, ':')[i as int] == texts(pieces@)[i as int]);
        if locale_is_chinese(pieces[i].as_str()) {
            return true;
        }
        i += 1;
    }
    false
}

/// Whether the user reads Chinese, by the values of the variables of the environment that name
/// locales. Each may name several, with colons between them.
pub fn is_chinese_locale(values: &Vec<String>) -> (chinese: bool)
    ensures
        chinese == exists|i: int| 0 <= i < values@.len() && has_chinese((#[trigger] values@[i])@),
{
    let mut i: usize = 0;
    while i < values.len()
        invariant
            i <= values@.len(),
            forall|j: int| 0 <= j < i ==> !has_chinese((#[trigger] values@[j])@),
        decreases values@.len() - i,
    {
        if list_has_chinese(values[i].as_str()) {
            return true;
        }
        i += 1;
    }
    false
}

// ---------------------------------------------------------------------------
// Memory
// ---------------------------------------------------------------------------

/// 2 to the power of `n`.
pub open spec fn power_of_two(n: nat) -> nat
    decreases n,
{
    if n == 0 {
        1
    } else {
        2 * power_of_two((n - 1) as nat)
    }
}

/// The whole number nearest to `a / b`, and of two that are equally near the even one.
pub open spec fn nearest(a: nat, b: nat) -> nat {
    let q = a / b;
    let r = a % b;
    if 2 * r > b || (2 * r == b && q % 2 == 1) {
        q + 1
    } else {
        q
    }
}

/// How many binary digits of a number are beyond the first 53.
pub open spec fn extra_digits(n: nat) -> nat
    decreases n,
{
    if n < 0x20_0000_0000_0000 {
        0
    } else {
        1 + extra_digits(n / 2)
    }
}

/// The number with at most 53 binary digits before its zeros that is nearest to `n`.
pub open spec fn rounded(n: nat) -> nat {
    let unit = power_of_two(extra_digits(n));
    nearest(n, unit) * unit
}

/// A number of tenths with one place behind the point.
pub open spec fn tenths(n: nat) -> Seq<char> {
    decimal(n / 10).push('.').push(decimal_digit(n % 10))
}

/// A number of hundredths with two places behind the point.
pub open spec fn hundredths(n: nat) -> Seq<char> {
    decimal(n / 100).push('.').push(decimal_digit(n % 100 / 10)).push(decimal_digit(n % 10))
}

/// A number of bytes as it is shown: in the largest unit of which there is at least one, with
/// one place behind the point, or two for gigabytes, and to 53 binary digits.
pub open spec fn bytes_text(bytes: nat) -> Seq<char> {
    if bytes >= 0x4000_0000 {
        hundredths(nearest(rounded(bytes) * 100, 0x4000_0000)) + " GB"@
    } else if bytes >= 0x10_0000 {
        tenths(nearest(bytes * 10, 0x10_0000)) + " MB"@
    } else if bytes >= 0x400 {
        tenths(nearest(bytes * 10, 0x400)) + " KB"@
    } else {
        decimal(bytes) + " B"@
    }
}

/// What is shown for what is known of the memory that a process takes up.
pub open spec fn memory_text(memory: MemoryValue, chinese: bool) -> Seq<char> {
    match memory {
        MemoryValue::Idle => "-"@,
        MemoryValue::Pending => chosen(chinese, "Querying..."@, "查询中..."@),
        MemoryValue::Unavailable => chosen(chinese, "N/A"@, "不可用"@),
        MemoryValue::Bytes(bytes) => bytes_text(bytes as nat),
    }
}

fn divide_nearest(a: u128, b: u128) -> (q: u128)
    requires
        0 < b <= 0x1_0000_0000_0000_0000,
        a < 0x1_0000_0000_0000_0000_0000_0000,
    ensures
        q == nearest(a as nat, b as nat),
        q <= a + 1,
{
    let q: u128 = a / b;
    let r: u128 = a % b;
    assert(a / b <= a) by (nonlinear_arith)
        requires
            b > 0,
    ;
    assert(r < b) by (nonlinear_arith)
        requires
            b > 0,
            r == a % b,
    ;
    if 2 * r > b || (2 * r == b && q % 2 == 1) {
        q + 1
    } else {
        q
    }
}

proof fn lemma_extra_digits(n: nat, left: nat)
    requires
        n < power_of_two(53 + left),
    ensures
        extra_digits(n) <= left,
    decreases left,
{
    if left == 0 {
        assert(power_of_two(53) == 0x20_0000_0000_0000) by {
            lemma_powers();
        }
    } else {
        assert(power_of_two(53 + left) == 2 * power_of_two((53 + left - 1) as nat));
        if n >= 0x20_0000_0000_0000 {
            lemma_extra_digits(n / 2, (left - 1) as nat);
        }
    }
}

proof fn lemma_powers()
    ensures
        power_of_two(53) == 0x20_0000_0000_0000,
        power_of_two(64) == 0x1_0000_0000_0000_0000,
{
    reveal_with_fuel(power_of_two, 14);
    assert(power_of_two(13) == 0x2000);
    assert(power_of_two(26) == 0x400_0000);
    assert(power_of_two(39) == 0x80_0000_0000);
    assert(power_of_two(52) == 0x10_0000_0000_0000);
    assert(power_of_two(53) == 0x20_0000_0000_0000);
    assert(power_of_two(64) == 0x1_0000_0000_0000_0000);
}

fn round_to_53(n: u64) -> (value: u128)
    ensures
        value == rounded(n as nat),
        value <= 0x2_0000_0000_0000_0000,
{
    let mut rest: u64 = n;
    let mut unit: u128 = 1;
    let ghost mut taken: nat = 0;
    proof {
        lemma_powers();
        lemma_extra_digits(n as nat, 11);
        lemma_small_power(0);
    }
    while rest >= 0x20_0000_0000_0000
        invariant
            extra_digits(n as nat) <= 11,
            extra_digits(n as nat) == taken + extra_digits(rest as nat),
            unit == power_of_two(taken),
            1 <= unit <= 0x800,
            taken <= 11,
        decreases rest,
    {
        proof {
            assert(extra_digits(rest as nat) == 1 + extra_digits((rest / 2) as nat));
            lemma_small_power(taken);
            taken = taken + 1;
            lemma_small_power(taken);
        }
        rest = rest / 2;
        unit = unit * 2;
    }
    proof {
        assert(extra_digits(rest as nat) == 0);
    }
    let q = divide_nearest(n as u128, unit);
    assert(q * unit <= 0x2_0000_0000_0000_0000) by {
        assert(n as int / unit as int * unit as int <= n as int) by (nonlinear_arith)
            requires
                unit > 0,
        ;
        assert(q <= n as int / unit as int + 1);
        assert(q * unit <= (n as int / unit as int + 1) * unit) by (nonlinear_arith)
            requires
                q <= n as int / unit as int + 1,
                unit > 0,
        ;
        assert((n as int / unit as int + 1) * unit == n as int / unit as int * unit + unit)
            by (nonlinear_arith);
    }
    q * unit
}

proof fn lemma_small_power(taken: nat)
    ensures
        taken <= 11 ==> 1 <= power_of_two(taken) <= 0x800,
        power_of_two(taken + 1) == 2 * power_of_two(taken),
{
    reveal_with_fuel(power_of_two, 13);
}

fn push_tenths(text: &mut String, n: u64)
    ensures
        final(text)@ == old(text)@ + tenths(n as nat),
{
    push_decimal(text, n / 10);
    text.push('.');
    push_decimal(text, n % 10);
    assert(decimal((n % 10) as nat) =~= seq![decimal_digit((n % 10) as nat)]);
    assert(final(text)@ =~= old(text)@ + tenths(n as nat));
}

fn push_hundredths(text: &mut String, n: u64)
    ensures
        final(text)@ == old(text)@ + hundredths(n as nat),
{
    push_decimal(text, n / 100);
    text.push('.');
    push_decimal(text, n % 100 / 10);
    push_decimal(text, n % 10);
    assert(decimal((n % 100 / 10) as nat) =~= seq![decimal_digit((n % 100 / 10) as nat)]);
    assert(decimal((n % 10) as nat) =~= seq![decimal_digit((n % 10) as nat)]);
    assert(final(text)@ =~= old(text)@ + hundredths(n as nat));
}

/// What is shown for what is known of the memory that a process takes up.
pub fn format_memory(memory: MemoryValue, chinese: bool) -> (text: String)
    ensures
        text@ == memory_text(memory, chinese),
{
    match memory {
        MemoryValue::Idle => "-".to_owned(),
        MemoryValue::Pending => tr(chinese, "Querying...", "查询中...").to_owned(),
        MemoryValue::Unavailable => tr(chinese, "N/A", "不可用").to_owned(),
        MemoryValue::Bytes(bytes) => {
            let mut text = String::new();
            if bytes >= 0x4000_0000 {
                let size = round_to_53(bytes);
                let count = divide_nearest(size * 100, 0x4000_0000);
                assert(count <= u64::MAX);
                push_hundredths(&mut text, count as u64);
                text.append(" GB");
            } else if bytes >= 0x10_0000 {
                let count = divide_nearest(bytes as u128 * 10, 0x10_0000);
                push_tenths(&mut text, count as u64);
                text.append(" MB");
            } else if bytes >= 0x400 {
                let count = divide_nearest(bytes as u128 * 10, 0x400);
                push_tenths(&mut text, count as u64);
                text.append(" KB");
            } else {
                push_decimal(&mut text, bytes);
                text.append(" B");
            }
            assert(text@ =~= memory_text(memory, chinese));
            text
        },
    }
}

// ---------------------------------------------------------------------------
// The processes of a tool
// ---------------------------------------------------------------------------

/// A number of blanks.
pub open spec fn blanks(count: int) -> Seq<char>
    decreases count,
{
    if count <= 0 {
        Seq::empty()
    } else {
        blanks(count - 1).push(' ')
    }
}

/// A text with blanks behind it, up to a width.
pub open spec fn padded(text: Seq<char>, width: int) -> Seq<char> {
    text + blanks(width - text.len())
}

/// A text with blanks before it, up to a width.
pub open spec fn aligned(text: Seq<char>, width: int) -> Seq<char> {
    blanks(width - text.len()) + text
}

fn push_blanks(out: &mut String, count: usize)
    ensures
        final(out)@ == old(out)@ + blanks(count as int),
{
    let ghost before = out@;
    let mut i: usize = 0;
    assert(out@ =~= before + blanks(0));
    while i < count
        invariant
            i <= count,
            out@ == before + blanks(i as int),
        decreases count - i,
    {
        out.push(' ');
        i += 1;
        assert(out@ =~= before + blanks(i as int));
    }
}

fn push_padded(out: &mut String, text: &str, width: usize)
    ensures
        final(out)@ == old(out)@ + padded(text@, width as int),
{
    let size: usize = chars_of(text).len();
    out.append(text);
    if size < width {
        push_blanks(out, width - size);
    }
    assert(final(out)@ =~= old(out)@ + padded(text@, width as int));
}

fn push_aligned(out: &mut String, text: &str, width: usize)
    ensures
        final(out)@ == old(out)@ + aligned(text@, width as int),
{
    let size: usize = chars_of(text).len();
    if size < width {
        push_blanks(out, width - size);
    }
    out.append(text);
    assert(final(out)@ =~= old(out)@ + aligned(text@, width as int));
}

fn push_padded_number(out: &mut String, n: u32, width: usize)
    ensures
        final(out)@ == old(out)@ + padded(decimal(n as nat), width as int),
{
    let mut text = String::new();
    push_decimal(&mut text, n as u64);
    assert(text@ =~= decimal(n as nat));
    push_padded(out, text.as_str(), width);
}

/// What memory is measured by.
pub open spec fn metric(platform: Platform) -> Seq<char> {
    match platform {
        Platform::Windows => "Private"@,
        Platform::Linux => "PSS"@,
    }
}

/// What stands before the name of a process to show its place in the tree.
pub open spec fn branch(depth: nat) -> Seq<char> {
    if depth == 0 {
        Seq::empty()
    } else {
        blanks(3 * (depth - 1)) + "└─ "@
    }
}

/// What is shown for the memory of a process of a tree.
pub open spec fn process_memory(memory: Option<u64>, chinese: bool) -> Seq<char> {
    match memory {
        Some(bytes) => bytes_text(bytes as nat),
        None => chosen(chinese, "N/A"@, "不可用"@),
    }
}

/// The line for a process of a tree.
pub open spec fn process_line(process: ProcessInfo, chinese: bool) -> Seq<char> {
    padded(decimal(process.pid as nat), 7).push(' ') + padded(
        decimal(process.parent_pid as nat),
        7,
    ).push(' ') + aligned(process_memory(process.memory_bytes, chinese), 10) + "    "@ + branch(
        process.depth as nat,
    ) + process.name@ + "\n"@
}

/// The lines for some processes.
pub open spec fn process_lines(processes: Seq<ProcessInfo>, chinese: bool) -> Seq<char>
    decreases processes.len(),
{
    if processes.len() == 0 {
        Seq::empty()
    } else {
        process_lines(processes.drop_last(), chinese) + process_line(processes.last(), chinese)
    }
}

/// What stands above the lines for the processes of a tree.
pub open spec fn tree_heading(count: nat, total: nat, chinese: bool, platform: Platform) -> Seq<
    char,
> {
    if chinese {
        "进程数："@ + decimal(count) + "    "@ + metric(platform) + " 合计："@ + bytes_text(total)
            + "\n\nPID     PPID    "@ + padded(metric(platform), 10) + "  进程\n"@
    } else {
        "Processes: "@ + decimal(count) + "    Total "@ + metric(platform) + ": "@ + bytes_text(
            total,
        ) + "\n\nPID     PPID    "@ + padded(metric(platform), 10) + "  PROCESS\n"@
    }
}

/// The text that shows the processes of a tool.
pub open spec fn tree_text(processes: Seq<ProcessInfo>, chinese: bool, platform: Platform) -> Seq<
    char,
> {
    if processes.len() == 0 {
        chosen(chinese, "The process has exited."@, "进程已退出。"@)
    } else {
        tree_heading(processes.len(), memory_sum(processes), chinese, platform) + process_lines(
            processes,
            chinese,
        )
    }
}

fn push_heading(out: &mut String, count: usize, total: u64, chinese: bool, platform: Platform)
    ensures
        final(out)@ == old(out)@ + tree_heading(count as nat, total as nat, chinese, platform),
{
    let unit: &str = match platform {
        Platform::Windows => "Private",
        Platform::Linux => "PSS",
    };
    let memory = format_memory(MemoryValue::Bytes(total), chinese);
    if chinese {
        out.append("进程数：");
        push_decimal(out, count as u64);
        out.append("    ");
        out.append(unit);
        out.append(" 合计：");
        out.append(memory.as_str());
        out.append("\n\nPID     PPID    ");
        push_padded(out, unit, 10);
        out.append("  进程\n");
    } else {
        out.append("Processes: ");
        push_decimal(out, count as u64);
        out.append("    Total ");
        out.append(unit);
        out.append(": ");
        out.append(memory.as_str());
        out.append("\n\nPID     PPID    ");
        push_padded(out, unit, 10);
        out.append("  PROCESS\n");
    }
    assert(final(out)@ =~= old(out)@ + tree_heading(count as nat, total as nat, chinese, platform));
}

fn push_branch(out: &mut String, depth: usize)
    ensures
        final(out)@ == old(out)@ + branch(depth as nat),
{
    if depth > 0 {
        let ghost before = out@;
        let mut i: usize = 1;
        assert(out@ =~= before + blanks(0));
        while i < depth
            invariant
                1 <= i <= depth,
                out@ == before + blanks(3 * (i - 1)),
            decreases depth - i,
        {
            proof {
                reveal_with_fuel(blanks, 4);
            }
            out.push(' ');
            out.push(' ');
            out.push(' ');
            i += 1;
            assert(blanks(3 * (i - 1)) =~= blanks(3 * (i - 2)).push(' ').push(' ').push(' '));
            assert(out@ =~= before + blanks(3 * (i - 1)));
        }
        out.append("└─ ");
    }
    assert(final(out)@ =~= old(out)@ + branch(depth as nat));
}

fn push_process(out: &mut String, process: &ProcessInfo, chinese: bool)
    ensures
        final(out)@ == old(out)@ + process_line(*process, chinese),
{
    let memory: String = match process.memory_bytes {
        Some(bytes) => format_memory(MemoryValue::Bytes(bytes), chinese),
        None => tr(chinese, "N/A", "不可用").to_owned(),
    };
    push_padded_number(out, process.pid, 7);
    out.push(' ');
    push_padded_number(out, process.parent_pid, 7);
    out.push(' ');
    push_aligned(out, memory.as_str(), 10);
    out.append("    ");
    push_branch(out, process.depth);
    out.append(process.name.as_str());
    out.append("\n");
    assert(final(out)@ =~= old(out)@ + process_line(*process, chinese));
}

/// The text that shows the processes of a tool.
pub fn format_process_tree(processes: &Vec<ProcessInfo>, chinese: bool, platform: Platform) -> (text:
    String)
    requires
        memory_sum(processes@) <= u64::MAX,
    ensures
        text@ == tree_text(processes@, chinese, platform),
{
    if processes.len() == 0 {
        return tr(chinese, "The process has exited.", "进程已退出。").to_owned();
    }
    let total: u64 = match total_memory(processes) {
        Some(total) => total,
        None => 0,
    };
    let mut text = String::new();
    push_heading(&mut text, processes.len(), total, chinese, platform);
    let ghost heading = text@;
    let mut i: usize = 0;
    assert(processes@.take(0) =~= Seq::<ProcessInfo>::empty());
    assert(heading =~= heading + process_lines(processes@.take(0), chinese));
    while i < processes.len()
        invariant
            i <= processes@.len(),
            text@ == heading + process_lines(processes@.take(i as int), chinese),
        decreases processes@.len() - i,
    {
        proof {
            let upto = processes@.take(i + 1);
            assert(upto.drop_last() =~= processes@.take(i as int));
            assert(upto.last() == processes@[i as int]);
        }
        push_process(&mut text, &processes[i], chinese);
        i += 1;
        assert(text@ =~= heading + process_lines(processes@.take(i as int), chinese));
    }
    assert(processes@.take(i as int) =~= processes@);
    assert(heading =~= tree_heading(
        processes@.len(),
        memory_sum(processes@),
        chinese,
        platform,
    ));
    text
}

/// The title above the processes of the tool `name`.
pub fn process_tree_title(name: &str, chinese: bool) -> (title: String)
    ensures
        title@ == name@ + chosen(chinese, " — Process Tree"@, " — 进程树"@),
{
    let mut title = name.to_owned();
    title.append(tr(chinese, " — Process Tree", " — 进程树"));
    title
}

// ---------------------------------------------------------------------------
// Times
// ---------------------------------------------------------------------------

/// The time for which a tool has run.
pub open spec fn uptime(seconds: nat, chinese: bool) -> Seq<char> {
    let days = decimal(seconds / 86_400) + chosen(chinese, "d "@, "天 "@);
    let hours = decimal(seconds % 86_400 / 3_600) + chosen(chinese, "h "@, "小时 "@);
    let minutes = decimal(seconds % 3_600 / 60) + chosen(chinese, "m"@, "分钟"@);
    if seconds >= 86_400 {
        days + hours + minutes
    } else if seconds >= 3_600 {
        hours + minutes
    } else {
        minutes
    }
}

/// The time for which a tool has run.
pub fn format_uptime(seconds: u64, chinese: bool) -> (text: String)
    ensures
        text@ == uptime(seconds as nat, chinese),
{
    let mut text = String::new();
    let days: u64 = seconds / 86_400;
    let hours: u64 = seconds % 86_400 / 3_600;
    let minutes: u64 = seconds % 3_600 / 60;
    if days > 0 {
        push_decimal(&mut text, days);
        text.append(tr(chinese, "d ", "天 "));
    }
    if days > 0 || hours > 0 {
        push_decimal(&mut text, hours);
        text.append(tr(chinese, "h ", "小时 "));
    }
    push_decimal(&mut text, minutes);
    text.append(tr(chinese, "m", "分钟"));
    assert(text@ =~= uptime(seconds as nat, chinese));
    text
}

/// The whole seconds between two times in milliseconds, or none if the second is not later.
pub open spec fn seconds_between(start_ms: nat, end_ms: nat) -> nat {
    if end_ms <= start_ms {
        0
    } else {
        ((end_ms - start_ms) / 1_000) as nat
    }
}

/// When a tool was started and for how long it has run.
pub open spec fn timing(started: Seq<char>, seconds: nat, chinese: bool) -> Seq<char> {
    chosen(chinese, "Started: "@, "启动："@) + started + chosen(
        chinese,
        "  ·  Uptime: "@,
        "  ·  运行："@,
    ) + uptime(seconds, chinese)
}

/// When a tool was started, as a text, and for how long it has run.
pub fn timing_text(started: &str, seconds: u64, chinese: bool) -> (text: String)
    ensures
        text@ == timing(started@, seconds as nat, chinese),
{
    let elapsed = format_uptime(seconds, chinese);
    let mut text = tr(chinese, "Started: ", "启动：").to_owned();
    text.append(started);
    text.append(tr(chinese, "  ·  Uptime: ", "  ·  运行："));
    text.append(elapsed.as_str());
    text
}

/// When a tool was started, in a place that is `offset` seconds ahead of UTC, and for how long
/// it has run at the time `now_unix_ms`.
pub fn format_tool_timing(
    started_at_unix_ms: u64,
    now_unix_ms: u64,
    offset: i32,
    chinese: bool,
) -> (text: String)
    requires
        started_at_unix_ms <= MAX_UNIX_MS,
        is_offset(offset as int),
    ensures
        text@ == timing(
            time_text(started_at_unix_ms as i64, offset, "%Y-%m-%d %H:%M:%S"@),
            seconds_between(started_at_unix_ms as nat, now_unix_ms as nat),
            chinese,
        ),
{
    let started = short_stamp(started_at_unix_ms as i64, offset);
    let seconds: u64 = now_unix_ms.saturating_sub(started_at_unix_ms) / 1_000;
    timing_text(started.as_str(), seconds, chinese)
}

// ---------------------------------------------------------------------------
// Rows
// ---------------------------------------------------------------------------

/// A colour.
#[derive(Clone, Copy, Debug, PartialEq, Eq, Structural)]
pub struct Color {
    pub red: u8,
    pub green: u8,
    pub blue: u8,
}

/// A row of the table of tools.
pub struct ToolRow {
    pub name: String,
    pub status: String,
    pub memory: String,
    pub accent: Color,
    pub pid: i32,
    pub restart_count: i32,
    pub manager: bool,
}

/// The name of a state.
pub open spec fn status_text(state: ToolState, chinese: bool) -> Seq<char> {
    match state {
        ToolState::Stopped => chosen(chinese, "Stopped"@, "已停止"@),
        ToolState::Starting => chosen(chinese, "Starting"@, "启动中"@),
        ToolState::Running => chosen(chinese, "Running"@, "运行中"@),
        ToolState::Stopping => chosen(chinese, "Stopping"@, "停止中"@),
        ToolState::Restarting => chosen(chinese, "Restarting"@, "重启中"@),
        ToolState::Crashed => chosen(chinese, "Crashed"@, "已崩溃"@),
    }
}

/// The colour of a state.
pub open spec fn status_color(state: ToolState) -> Color {
    match state {
        ToolState::Stopped => Color { red: 116, green: 131, blue: 145 },
        ToolState::Running => Color { red: 55, green: 190, blue: 142 },
        ToolState::Crashed => Color { red: 239, green: 93, blue: 89 },
        _ => Color { red: 241, green: 167, blue: 58 },
    }
}

fn status(state: ToolState, chinese: bool) -> (shown: (String, Color))
    ensures
        shown.0@ == status_text(state, chinese),
        shown.1 == status_color(state),
{
    let waiting = Color { red: 241, green: 167, blue: 58 };
    match state {
        ToolState::Stopped => (
            tr(chinese, "Stopped", "已停止").to_owned(),
            Color { red: 116, green: 131, blue: 145 },
        ),
        ToolState::Starting => (tr(chinese, "Starting", "启动中").to_owned(), waiting),
        ToolState::Running => (
            tr(chinese, "Running", "运行中").to_owned(),
            Color { red: 55, green: 190, blue: 142 },
        ),
        ToolState::Stopping => (tr(chinese, "Stopping", "停止中").to_owned(), waiting),
        ToolState::Restarting => (tr(chinese, "Restarting", "重启中").to_owned(), waiting),
        ToolState::Crashed => (
            tr(chinese, "Crashed", "已崩溃").to_owned(),
            Color { red: 239, green: 93, blue: 89 },
        ),
    }
}

/// Whether a row shows a tool. Where the tool has no process, the number of one is 0.
pub open spec fn is_tool_row(row: ToolRow, snapshot: ToolSnapshot, chinese: bool) -> bool {
    &&& row.name@ == snapshot.name@
    &&& row.status@ == status_text(snapshot.state, chinese)
    &&& row.memory@ == memory_text(snapshot.memory, chinese)
    &&& row.accent == status_color(snapshot.state)
    &&& row.pid == (match snapshot.pid {
        Some(pid) => pid,
        None => 0,
    }) as i32
    &&& row.restart_count == snapshot.restart_count as i32
    &&& !row.manager
}

/// Whether a row shows the manager, which is the process `pid`.
pub open spec fn is_manager_row(row: ToolRow, memory: MemoryValue, pid: u32, chinese: bool) -> bool {
    &&& row.name@ == chosen(chinese, "Tool Manager"@, "工具管理器"@)
    &&& row.status@ == status_text(ToolState::Running, chinese)
    &&& row.memory@ == memory_text(memory, chinese)
    &&& row.accent == status_color(ToolState::Running)
    &&& row.pid == pid as i32
    &&& row.restart_count == 0
    &&& row.manager
}

/// The row for a tool.
pub fn row_from_snapshot(snapshot: &ToolSnapshot, chinese: bool) -> (row: ToolRow)
    ensures
        is_tool_row(row, *snapshot, chinese),
{
    let (status, accent) = status(snapshot.state, chinese);
    let pid: u32 = match snapshot.pid {
        Some(pid) => pid,
        None => 0,
    };
    ToolRow {
        name: snapshot.name.clone(),
        status,
        memory: format_memory(snapshot.memory, chinese),
        accent,
        pid: #[verifier::truncate]
        (pid as i32),
        restart_count: #[verifier::truncate]
        (snapshot.restart_count as i32),
        manager: false,
    }
}

/// The row for the manager itself, which is the process `pid`.
pub fn manager_row(memory: MemoryValue, pid: u32, chinese: bool) -> (row: ToolRow)
    ensures
        is_manager_row(row, memory, pid, chinese),
{
    let (status, accent) = status(ToolState::Running, chinese);
    ToolRow {
        name: tr(chinese, "Tool Manager", "工具管理器").to_owned(),
        status,
        memory: format_memory(memory, chinese),
        accent,
        pid: #[verifier::truncate]
        (pid as i32),
        restart_count: 0,
        manager: true,
    }
}

/// The rows of the table: one for each tool, in order, and behind them that of the manager,
/// which is the process `pid`.
pub fn rows(snapshots: &Vec<ToolSnapshot>, memory: MemoryValue, pid: u32, chinese: bool) -> (rows:
    Vec<ToolRow>)
    ensures
        rows@.len() == snapshots@.len() + 1,
        forall|i: int|
            0 <= i < snapshots@.len() ==> is_tool_row(#[trigger] rows@[i], snapshots@[i], chinese),
        is_manager_row(rows@[snapshots@.len() as int], memory, pid, chinese),
{
    let mut rows: Vec<ToolRow> = Vec::new();
    let mut i: usize = 0;
    while i < snapshots.len()
        invariant
            i <= snapshots@.len(),
            rows@.len() == i,
            forall|j: int|
                0 <= j < i ==> is_tool_row(#[trigger] rows@[j], snapshots@[j], chinese),
        decreases snapshots@.len() - i,
    {
        rows.push(row_from_snapshot(&snapshots[i], chinese));
        i += 1;
    }
    rows.push(manager_row(memory, pid, chinese));
    rows
}

/// How many of some tools are in a state.
pub open spec fn count_in(snapshots: Seq<ToolSnapshot>, state: ToolState) -> nat
    decreases snapshots.len(),
{
    if snapshots.len() == 0 {
        0
    } else {
        count_in(snapshots.drop_last(), state) + if snapshots.last().state == state {
            1nat
        } else {
            0
        }
    }
}

fn count_state(snapshots: &Vec<ToolSnapshot>, state: ToolState) -> (count: usize)
    ensures
        count == count_in(snapshots@, state),
{
    let mut count: usize = 0;
    let mut i: usize = 0;
    assert(snapshots@.take(0) =~= Seq::<ToolSnapshot>::empty());
    while i < snapshots.len()
        invariant
            count <= i <= snapshots@.len(),
            count == count_in(snapshots@.take(i as int), state),
        decreases snapshots@.len() - i,
    {
        proof {
            let upto = snapshots@.take(i + 1);
            assert(upto.drop_last() =~= snapshots@.take(i as int));
            assert(upto.last() == snapshots@[i as int]);
        }
        if snapshots[i].state == state {
            count += 1;
        }
        i += 1;
    }
    assert(snapshots@.take(i as int) =~= snapshots@);
    count
}

/// How many tools run, how many there are, and how many have crashed.
pub fn summary(snapshots: &Vec<ToolSnapshot>, chinese: bool) -> (text: String)
    ensures
        text@ == decimal(count_in(snapshots@, ToolState::Running)) + chosen(
            chinese,
            " running  /  "@,
            " 个运行中  /  共 "@,
        ) + decimal(snapshots@.len()) + chosen(chinese, " total  /  "@, " 个  /  "@) + decimal(
            count_in(snapshots@, ToolState::Crashed),
        ) + chosen(chinese, " attention"@, " 个需关注"@),
{
    let running = count_state(snapshots, ToolState::Running);
    let crashed = count_state(snapshots, ToolState::Crashed);
    let mut text = String::new();
    push_decimal(&mut text, running as u64);
    assert(text@ =~= decimal(running as nat));
    text.append(tr(chinese, " running  /  ", " 个运行中  /  共 "));
    push_decimal(&mut text, snapshots.len() as u64);
    text.append(tr(chinese, " total  /  ", " 个  /  "));
    push_decimal(&mut text, crashed as u64);
    text.append(tr(chinese, " attention", " 个需关注"));
    text
}

/// Whether the memory of the manager or of a tool is being asked for.
pub fn memory_refreshing(snapshots: &Vec<ToolSnapshot>, manager_memory: MemoryValue) -> (refreshing:
    bool)
    ensures
        refreshing == (manager_memory == MemoryValue::Pending || exists|i: int|
            0 <= i < snapshots@.len() && (#[trigger] snapshots@[i]).memory
                == MemoryValue::Pending),
{
    if manager_memory == MemoryValue::Pending {
        return true;
    }
    let mut i: usize = 0;
    while i < snapshots.len()
        invariant
            i <= snapshots@.len(),
            forall|j: int|
                0 <= j < i ==> (#[trigger] snapshots@[j]).memory != MemoryValue::Pending,
        decreases snapshots@.len() - i,
    {
        if snapshots[i].memory == MemoryValue::Pending {
            return true;
        }
        i += 1;
    }
    false
}

// ---------------------------------------------------------------------------
// What has been shown
// ---------------------------------------------------------------------------

/// The tool that is selected, if `selected` is the place of one of `count` tools.
pub fn selected_tool(selected: i32, count: usize) -> (index: Option<usize>)
    ensures
        match index {
            Some(index) => index == selected && index < count,
            None => selected < 0 || selected >= count,
        },
{
    if selected >= 0 && (selected as usize) < count {
        Some(selected as usize)
    } else {
        None
    }
}

/// What is shown in place of a log while no tool is selected.
pub fn select_hint(chinese: bool) -> (text: String)
    ensures
        text@ == chosen(
            chinese,
            "Select a tool to inspect its live output."@,
            "选择一个工具以查看实时输出。"@,
        ),
{
    tr(
        chinese,
        "Select a tool to inspect its live output.",
        "选择一个工具以查看实时输出。",
    ).to_owned()
}

/// What the table of tools shows.
pub struct StateRefreshCache {
    pub initialized: bool,
    pub snapshots: Vec<ToolSnapshot>,
    pub manager_memory: Option<MemoryValue>,
}

impl StateRefreshCache {
    /// Nothing has been shown.
    pub fn new() -> (cache: Self)
        ensures
            !cache.initialized,
            cache.snapshots@.len() == 0,
            cache.manager_memory is None,
    {
        StateRefreshCache { initialized: false, snapshots: Vec::new(), manager_memory: None }
    }

    /// Whether the table shows something else than what is known now.
    pub fn is_stale(&self, snapshots: &Vec<ToolSnapshot>, manager_memory: MemoryValue) -> (stale:
        bool)
        ensures
            stale == (!self.initialized || !all_show_same(self.snapshots@, snapshots@)
                || self.manager_memory != Some(manager_memory)),
    {
        let known = match self.manager_memory {
            Some(memory) => memory == manager_memory,
            None => false,
        };
        !self.initialized || !same_snapshots(&self.snapshots, snapshots) || !known
    }

    /// Notes what the table shows now.
    pub fn store(&mut self, snapshots: Vec<ToolSnapshot>, manager_memory: MemoryValue)
        ensures
            final(self).initialized,
            final(self).snapshots == snapshots,
            final(self).manager_memory == Some(manager_memory),
    {
        self.snapshots = snapshots;
        self.manager_memory = Some(manager_memory);
        self.initialized = true;
    }
}

/// What is shown of the selected tool.
pub struct LogRefreshCache {
    pub initialized: bool,
    pub selected_index: Option<i32>,
    pub selected_started_at: Option<u64>,
    pub log_text: String,
}

/// Which parts of what is shown of the selected tool are to be shown anew.
#[derive(Clone, Copy, Debug, PartialEq, Eq, Structural)]
pub struct LogRefresh {
    pub timing: bool,
    pub text: bool,
}

impl LogRefreshCache {
    /// Nothing has been shown.
    pub fn new() -> (cache: Self)
        ensures
            !cache.initialized,
            cache.selected_index is None,
            cache.selected_started_at is None,
            cache.log_text@ == Seq::<char>::empty(),
    {
        LogRefreshCache {
            initialized: false,
            selected_index: None,
            selected_started_at: None,
            log_text: String::new(),
        }
    }

    /// Takes what is known of the selected tool, and says what of it is to be shown anew: when it
    /// was started, and its log.
    pub fn refresh(&mut self, selected: i32, started_at: Option<u64>, log_text: &str) -> (refresh:
        LogRefresh)
        ensures
            refresh.timing == (!old(self).initialized || old(self).selected_index != Some(selected)
                || old(self).selected_started_at != started_at),
            refresh.text == (!old(self).initialized || old(self).selected_index != Some(selected)
                || old(self).log_text@ != log_text@),
            final(self).initialized,
            final(self).selected_index == Some(selected),
            final(self).selected_started_at == started_at,
            final(self).log_text@ == log_text@,
    {
        let same = match self.selected_index {
            Some(index) => index == selected,
            None => false,
        };
        let moved = !self.initialized || !same;
        let timing = moved || !same_optional_u64(self.selected_started_at, started_at);
        let text = moved || !same_text(self.log_text.as_str(), log_text);
        self.initialized = true;
        self.selected_index = Some(selected);
        self.selected_started_at = started_at;
        if text {
            self.log_text = log_text.to_owned();
        }
        LogRefresh { timing, text }
    }
}

// ---------------------------------------------------------------------------
// Looking at the processes of a tool
// ---------------------------------------------------------------------------

/// The part of the window that shows the processes of a tool.
pub struct TreePanel {
    pub title: String,
    pub text: String,
    pub loading: bool,
    pub visible: bool,
}

/// The looks at processes, of which each is asked for and answered later.
pub struct Inspection {
    /// The number of the last look.
    pub generation: u64,
}

impl Inspection {
    /// No look has been asked for.
    pub fn new() -> (inspection: Self)
        ensures
            inspection.generation == 0,
    {
        Inspection { generation: 0 }
    }

    /// Asks for a look at the tool that is selected, if one is, and gives it a number.
    pub fn begin(&mut self, selected: i32) -> (look: Option<(usize, u64)>)
        requires
            old(self).generation < u64::MAX,
        ensures
            if selected < 0 {
                look is None && *final(self) == *old(self)
            } else {
                &&& look == Some((selected as usize, final(self).generation))
                &&& final(self).generation == old(self).generation + 1
            },
    {
        if selected < 0 {
            return None;
        }
        self.generation = self.generation + 1;
        Some((selected as usize, self.generation))
    }

    /// Whether the answer to a look is to be shown: no other was asked for since.
    pub fn is_current(&self, generation: u64) -> (current: bool)
        ensures
            current == (self.generation == generation),
    {
        self.generation == generation
    }
}

/// What is shown while a look at the processes of a tool is not answered.
pub fn waiting_panel(chinese: bool) -> (panel: TreePanel)
    ensures
        panel.title@ == chosen(chinese, "Process Tree"@, "进程树"@),
        panel.text@ == Seq::<char>::empty(),
        panel.loading,
        panel.visible,
{
    TreePanel {
        title: tr(chinese, "Process Tree", "进程树").to_owned(),
        text: String::new(),
        loading: true,
        visible: true,
    }
}

/// What is shown for the processes of the tool `name`, where `visible` tells whether the panel
/// is still open.
pub fn tree_panel(
    name: &str,
    processes: &Vec<ProcessInfo>,
    chinese: bool,
    platform: Platform,
    visible: bool,
) -> (panel: TreePanel)
    requires
        memory_sum(processes@) <= u64::MAX,
    ensures
        panel.title@ == name@ + chosen(chinese, " — Process Tree"@, " — 进程树"@),
        panel.text@ == tree_text(processes@, chinese, platform),
        !panel.loading,
        panel.visible == visible,
{
    TreePanel {
        title: process_tree_title(name, chinese),
        text: format_process_tree(processes, chinese, platform),
        loading: false,
        visible,
    }
}

/// What is shown where the processes of a tool could not be looked at, where `visible` tells
/// whether the panel is still open.
pub fn fault_panel(error: &str, chinese: bool, visible: bool) -> (panel: TreePanel)
    ensures
        panel.title@ == chosen(chinese, "Process tree unavailable"@, "无法读取进程树"@),
        panel.text@ == error@,
        !panel.loading,
        panel.visible == visible,
{
    TreePanel {
        title: tr(chinese, "Process tree unavailable", "无法读取进程树").to_owned(),
        text: error.to_owned(),
        loading: false,
        visible,
    }
}

// ---------------------------------------------------------------------------
// What the texts amount to
// ---------------------------------------------------------------------------

/// Of two texts the one in the language that is read is shown.
pub proof fn law_language_that_is_shown(english: Seq<char>, simplified_chinese: Seq<char>)
    ensures
        chosen(true, english, simplified_chinese) == simplified_chinese,
        chosen(false, english, simplified_chinese) == english,
{
}

/// A locale is a Chinese one exactly if its trimmed text is `zh`, in whatever case, alone or with
/// an underscore, a hyphen or a full stop behind it.
pub proof fn law_chinese_locale(locale: Seq<char>)
    ensures
        ({
            let name = trim(locale);
            is_chinese(locale) <==> name.len() >= 2 && (name[0] == 'z' || name[0] == 'Z') && (
            name[1] == 'h' || name[1] == 'H') && (name.len() == 2 || name[2] == '_' || name[2]
                == '-' || name[2] == '.')
        }),
{
    reveal_strlit("zh");
    reveal_strlit("zh_");
    reveal_strlit("zh-");
    reveal_strlit("zh.");
    let name = trim(locale);
    let lower = ascii_lowercase(name);
    assert(lower.len() == name.len());
    if name.len() >= 2 {
        assert(lower[0] == crate::text::ascii_lower(name[0]));
        assert(lower[1] == crate::text::ascii_lower(name[1]));
        lemma_lower_letters(name[0]);
        lemma_lower_letters(name[1]);
        if name.len() == 2 {
            if lower[0] == 'z' && lower[1] == 'h' {
                assert(lower =~= "zh"@);
            }
            if lower == "zh"@ {
                assert(lower[0] == "zh"@[0] && lower[1] == "zh"@[1]);
            }
        } else {
            assert(lower[2] == crate::text::ascii_lower(name[2]));
            lemma_lower_letters(name[2]);
            lemma_three(lower, "zh_"@);
            lemma_three(lower, "zh-"@);
            lemma_three(lower, "zh."@);
        }
    }
}

proof fn lemma_three(s: Seq<char>, prefix: Seq<char>)
    requires
        s.len() >= 3,
        prefix.len() == 3,
    ensures
        starts_with(s, prefix) <==> s[0] == prefix[0] && s[1] == prefix[1] && s[2] == prefix[2],
{
    let start = s.subrange(0, 3);
    if start == prefix {
        assert(start[0] == prefix[0] && start[1] == prefix[1] && start[2] == prefix[2]);
    }
    if s[0] == prefix[0] && s[1] == prefix[1] && s[2] == prefix[2] {
        assert(start =~= prefix);
    }
}

proof fn lemma_lower_letters(c: char)
    ensures
        crate::text::ascii_lower(c) == 'z' <==> c == 'z' || c == 'Z',
        crate::text::ascii_lower(c) == 'h' <==> c == 'h' || c == 'H',
        crate::text::ascii_lower(c) == '_' <==> c == '_',
        crate::text::ascii_lower(c) == '-' <==> c == '-',
        crate::text::ascii_lower(c) == '.' <==> c == '.',
{
    if 'A' <= c <= 'Z' {
        assert(crate::text::ascii_lower(c) as u32 == c as u32 + 32);
    }
}

/// One of several locales is a Chinese one exactly if one of the pieces between the colons is.
pub proof fn law_chinese_among_locales(value: Seq<char>, i: int)
    ensures
        0 <= i < split(value, ':').len() && is_chinese(split(value, ':')[i]) ==> has_chinese(value),
        has_chinese(value) ==> exists|k: int|
            0 <= k < split(value, ':').len() && is_chinese(#[trigger] split(value, ':')[k]),
{
}

/// The nearest whole number is no further than half from the quotient, and even where two are as
/// near.
pub proof fn law_nearest(a: nat, b: nat)
    requires
        b > 0,
    ensures
        2 * (nearest(a, b) * b - a) <= b,
        2 * (a - nearest(a, b) * b) <= b,
        2 * (nearest(a, b) * b - a) == b || 2 * (a - nearest(a, b) * b) == b ==> nearest(a, b) % 2
            == 0,
{
    let q = a / b;
    let r = a % b;
    assert(a == q * b + r && r < b) by (nonlinear_arith)
        requires
            b > 0,
            q == a / b,
            r == a % b,
    ;
    assert((q + 1) * b == q * b + b) by (nonlinear_arith);
}

/// A number of up to 53 binary digits is not rounded; a larger one is, by no more than one part in
/// as many as 53 binary digits tell apart.
pub proof fn law_rounded(n: nat)
    ensures
        n < 0x20_0000_0000_0000 ==> rounded(n) == n,
        0x20_0000_0000_0000 * (rounded(n) - n) <= n,
        0x20_0000_0000_0000 * (n - rounded(n)) <= n,
{
    let k = extra_digits(n);
    let unit = power_of_two(k);
    lemma_power_positive(k);
    law_nearest(n, unit);
    lemma_extra_digits_bound(n);
    if k == 0 {
        assert(unit == 1);
        assert(n / 1 == n && n % 1 == 0) by (nonlinear_arith);
    } else {
        assert(0x10_0000_0000_0000 * unit <= n);
        let d = rounded(n) - n;
        assert(2 * d <= unit && -2 * d <= unit);
    }
}

proof fn lemma_power_positive(k: nat)
    ensures
        power_of_two(k) > 0,
    decreases k,
{
    if k > 0 {
        lemma_power_positive((k - 1) as nat);
    }
}

proof fn lemma_extra_digits_bound(n: nat)
    ensures
        extra_digits(n) > 0 ==> 0x10_0000_0000_0000 * power_of_two(extra_digits(n)) <= n,
    decreases n,
{
    if n >= 0x20_0000_0000_0000 {
        lemma_extra_digits_bound(n / 2);
        let k = extra_digits(n / 2);
        assert(power_of_two(k + 1) == 2 * power_of_two(k));
        if k == 0 {
            assert(power_of_two(0) == 1);
        }
    }
}

/// Bytes are shown in the largest unit of which there is at least one: as they are below a
/// kibibyte, and else as the nearest tenth of a kibibyte or a mebibyte, or hundredth of a gibibyte.
pub proof fn law_bytes_are_shown_in_their_unit(bytes: nat)
    ensures
        bytes < 1_024 ==> bytes_text(bytes) == decimal(bytes) + " B"@,
        1_024 <= bytes < 1_048_576 ==> bytes_text(bytes) == tenths(nearest(bytes * 10, 1_024))
            + " KB"@,
        1_048_576 <= bytes < 1_073_741_824 ==> bytes_text(bytes) == tenths(
            nearest(bytes * 10, 1_048_576),
        ) + " MB"@,
        bytes >= 1_073_741_824 ==> bytes_text(bytes) == hundredths(
            nearest(rounded(bytes) * 100, 1_073_741_824),
        ) + " GB"@,
{
}

/// Tenths and hundredths are written with one and with two digits behind the point.
pub proof fn law_places_behind_the_point(whole: nat, tenth: nat, hundredth: nat)
    requires
        tenth < 10,
        hundredth < 10,
    ensures
        tenths(whole * 10 + tenth) == decimal(whole) + seq!['.'] + decimal(tenth),
        hundredths(whole * 100 + tenth * 10 + hundredth) == decimal(whole) + seq!['.'] + decimal(
            tenth,
        ) + decimal(hundredth),
{
    let n = whole * 10 + tenth;
    assert(n / 10 == whole && n % 10 == tenth);
    assert(tenths(n) =~= decimal(whole) + seq!['.'] + decimal(tenth));
    let m = whole * 100 + tenth * 10 + hundredth;
    assert(m / 100 == whole && m % 100 / 10 == tenth && m % 10 == hundredth);
    assert(hundredths(m) =~= decimal(whole) + seq!['.'] + decimal(tenth) + decimal(hundredth));
}

/// What is known of memory is shown as such: bytes in their unit, and else that nothing is asked
/// for, that it is being asked for, or that it is not to be had.
pub proof fn law_memory_is_shown(bytes: u64, chinese: bool)
    ensures
        memory_text(MemoryValue::Bytes(bytes), chinese) == bytes_text(bytes as nat),
        memory_text(MemoryValue::Idle, chinese) == "-"@,
        memory_text(MemoryValue::Pending, false) == "Querying..."@,
        memory_text(MemoryValue::Pending, true) == "查询中..."@,
        memory_text(MemoryValue::Unavailable, false) == "N/A"@,
        memory_text(MemoryValue::Unavailable, true) == "不可用"@,
        process_memory(Some(bytes), chinese) == bytes_text(bytes as nat),
        process_memory(None, false) == "N/A"@,
        process_memory(None, true) == "不可用"@,
{
}

/// Blanks are blanks, as many as were asked for; a text in a column keeps all its characters and
/// gets blanks behind or before it up to the width of the column.
pub proof fn law_columns(text: Seq<char>, width: int, i: int)
    ensures
        blanks(width).len() == if width > 0 {
            width
        } else {
            0
        },
        0 <= i < width ==> blanks(width)[i] == ' ',
        padded(text, width).take(text.len() as int) == text,
        padded(text, width).skip(text.len() as int) == blanks(width - text.len()),
        text.len() >= width ==> padded(text, width) == text && aligned(text, width) == text,
        text.len() < width ==> padded(text, width).len() == width && aligned(text, width).len()
            == width && aligned(text, width).skip(width - text.len()) == text && aligned(
            text,
            width,
        ).take(width - text.len()) == blanks(width - text.len()),
{
    lemma_blanks(width);
    lemma_blanks(width - text.len());
    assert(padded(text, width).take(text.len() as int) =~= text);
    assert(padded(text, width).skip(text.len() as int) =~= blanks(width - text.len()));
    if text.len() >= width {
        assert(padded(text, width) =~= text);
        assert(aligned(text, width) =~= text);
    } else {
        assert(aligned(text, width).skip(width - text.len()) =~= text);
        assert(aligned(text, width).take(width - text.len()) =~= blanks(width - text.len()));
    }
}

proof fn lemma_blanks(count: int)
    ensures
        blanks(count).len() == if count > 0 {
            count
        } else {
            0
        },
        forall|i: int| 0 <= i < count ==> blanks(count)[i] == ' ',
    decreases count,
{
    if count > 0 {
        lemma_blanks(count - 1);
    }
}

/// The line of a process holds its number, that of its parent, its memory, its place in the tree
/// and its name, in this order; the lines of processes stand below each other, in order, below the
/// heading; and nothing is said but that where there is none.
pub proof fn law_lines_of_processes(
    processes: Seq<ProcessInfo>,
    process: ProcessInfo,
    chinese: bool,
    platform: Platform,
)
    ensures
        process_line(process, chinese) == padded(decimal(process.pid as nat), 7) + " "@ + padded(
            decimal(process.parent_pid as nat),
            7,
        ) + " "@ + aligned(process_memory(process.memory_bytes, chinese), 10) + "    "@ + branch(
            process.depth as nat,
        ) + process.name@ + "\n"@,
        process_lines(Seq::empty(), chinese) == Seq::<char>::empty(),
        process_lines(processes.push(process), chinese) == process_lines(processes, chinese)
            + process_line(process, chinese),
        branch(0) == Seq::<char>::empty(),
        forall|depth: nat|
            depth > 0 ==> #[trigger] branch(depth) == blanks(3 * (depth - 1)) + "└─ "@,
        processes.len() > 0 ==> tree_text(processes, chinese, platform) == tree_heading(
            processes.len(),
            memory_sum(processes),
            chinese,
            platform,
        ) + process_lines(processes, chinese),
        tree_text(Seq::empty(), false, platform) == "The process has exited."@,
        tree_text(Seq::empty(), true, platform) == "进程已退出。"@,
        metric(Platform::Linux) == "PSS"@,
        metric(Platform::Windows) == "Private"@,
{
    reveal_strlit(" ");
    assert(processes.push(process).drop_last() =~= processes);
    assert(process_line(process, chinese) =~= padded(decimal(process.pid as nat), 7) + " "@
        + padded(decimal(process.parent_pid as nat), 7) + " "@ + aligned(
        process_memory(process.memory_bytes, chinese),
        10,
    ) + "    "@ + branch(process.depth as nat) + process.name@ + "\n"@);
}

/// The heading of a tree tells how many processes there are and how much memory they take up.
pub proof fn law_heading_of_a_tree(count: nat, total: nat, platform: Platform)
    ensures
        tree_heading(count, total, false, platform) == "Processes: "@ + decimal(count) + (
        "    Total "@ + metric(platform) + ": "@ + bytes_text(total)) + ("\n\nPID     PPID    "@
            + padded(metric(platform), 10) + "  PROCESS\n"@),
        tree_heading(count, total, true, platform) == "进程数："@ + decimal(count) + ("    "@ + metric(
            platform,
        ) + " 合计："@ + bytes_text(total)) + ("\n\nPID     PPID    "@ + padded(metric(platform), 10)
            + "  进程\n"@),
{
    assert(tree_heading(count, total, false, platform) =~= "Processes: "@ + decimal(count) + (
    "    Total "@ + metric(platform) + ": "@ + bytes_text(total)) + ("\n\nPID     PPID    "@
        + padded(metric(platform), 10) + "  PROCESS\n"@));
    assert(tree_heading(count, total, true, platform) =~= "进程数："@ + decimal(count) + ("    "@
        + metric(platform) + " 合计："@ + bytes_text(total)) + ("\n\nPID     PPID    "@ + padded(
        metric(platform),
        10,
    ) + "  进程\n"@));
}

/// The time for which a tool has run is shown in days, hours and minutes that make it up, but for
/// less than a minute: without days below one, and without hours below one.
pub proof fn law_time_of_running(days: nat, hours: nat, minutes: nat, seconds: nat)
    requires
        hours < 24,
        minutes < 60,
        seconds < 60,
    ensures
        ({
            let time = days * 86_400 + hours * 3_600 + minutes * 60 + seconds;
            &&& days > 0 ==> uptime(time, false) == decimal(days) + "d "@ + (decimal(hours) + "h "@)
                + (decimal(minutes) + "m"@)
            &&& days == 0 && hours > 0 ==> uptime(time, false) == decimal(hours) + "h "@ + (decimal(
                minutes,
            ) + "m"@)
            &&& days == 0 && hours == 0 ==> uptime(time, false) == decimal(minutes) + "m"@
            &&& days > 0 ==> uptime(time, true) == decimal(days) + "天 "@ + (decimal(hours) + "小时 "@)
                + (decimal(minutes) + "分钟"@)
            &&& days == 0 && hours > 0 ==> uptime(time, true) == decimal(hours) + "小时 "@ + (decimal(
                minutes,
            ) + "分钟"@)
            &&& days == 0 && hours == 0 ==> uptime(time, true) == decimal(minutes) + "分钟"@
        }),
{
    let time = days * 86_400 + hours * 3_600 + minutes * 60 + seconds;
    assert(time / 86_400 == days);
    assert(time % 86_400 == hours * 3_600 + minutes * 60 + seconds);
    assert(time % 86_400 / 3_600 == hours);
    assert(time % 3_600 == minutes * 60 + seconds);
    assert(time % 3_600 / 60 == minutes);
}

/// A tool has run for the whole seconds since its start, and for none where the clock is behind it.
/// Its start and that time are shown together.
pub proof fn law_time_since_the_start(start_ms: nat, more_ms: nat, started: Seq<char>, seconds: nat)
    ensures
        seconds_between(start_ms, start_ms + more_ms) == more_ms / 1_000,
        seconds_between(start_ms + more_ms, start_ms) == 0,
        timing(started, seconds, false) == "Started: "@ + started + "  ·  Uptime: "@ + uptime(
            seconds,
            false,
        ),
        timing(started, seconds, true) == "启动："@ + started + "  ·  运行："@ + uptime(seconds, true),
{
}

/// Each state is shown by its name and its colour.
pub proof fn law_states_are_told_apart(chinese: bool)
    ensures
        status_text(ToolState::Stopped, chinese) == chosen(chinese, "Stopped"@, "已停止"@),
        status_text(ToolState::Starting, chinese) == chosen(chinese, "Starting"@, "启动中"@),
        status_text(ToolState::Running, chinese) == chosen(chinese, "Running"@, "运行中"@),
        status_text(ToolState::Stopping, chinese) == chosen(chinese, "Stopping"@, "停止中"@),
        status_text(ToolState::Restarting, chinese) == chosen(chinese, "Restarting"@, "重启中"@),
        status_text(ToolState::Crashed, chinese) == chosen(chinese, "Crashed"@, "已崩溃"@),
        status_color(ToolState::Stopped) == (Color { red: 116, green: 131, blue: 145 }),
        status_color(ToolState::Running) == (Color { red: 55, green: 190, blue: 142 }),
        status_color(ToolState::Crashed) == (Color { red: 239, green: 93, blue: 89 }),
        status_color(ToolState::Starting) == (Color { red: 241, green: 167, blue: 58 }),
        status_color(ToolState::Stopping) == (Color { red: 241, green: 167, blue: 58 }),
        status_color(ToolState::Restarting) == (Color { red: 241, green: 167, blue: 58 }),
{
}

/// A row shows all that is known of a tool: its name, its state, its memory, its process, or 0, and
/// its restarts.
pub proof fn law_row_shows_its_tool(row: ToolRow, snapshot: ToolSnapshot, chinese: bool, pid: u32)
    requires
        is_tool_row(row, snapshot, chinese),
    ensures
        row.name@ == snapshot.name@,
        row.status@ == status_text(snapshot.state, chinese),
        row.memory@ == memory_text(snapshot.memory, chinese),
        row.accent == status_color(snapshot.state),
        snapshot.pid == Some(pid) && pid <= i32::MAX ==> row.pid == pid,
        snapshot.pid == Some(pid) ==> row.pid == pid as i32,
        row.restart_count == snapshot.restart_count as i32,
        snapshot.pid is None ==> row.pid == 0,
        snapshot.restart_count <= i32::MAX ==> row.restart_count == snapshot.restart_count,
        !row.manager,
{
}

/// The row of the manager shows it as running, with its memory and its process.
pub proof fn law_row_shows_the_manager(row: ToolRow, memory: MemoryValue, pid: u32, chinese: bool)
    requires
        is_manager_row(row, memory, pid, chinese),
    ensures
        row.status@ == status_text(ToolState::Running, chinese),
        row.accent == status_color(ToolState::Running),
        row.memory@ == memory_text(memory, chinese),
        pid <= i32::MAX ==> row.pid == pid,
        row.pid == pid as i32,
        row.restart_count == 0,
        row.manager,
        row.name@ == chosen(chinese, "Tool Manager"@, "工具管理器"@),
{
}

/// Tools in a state are counted one by one.
pub proof fn law_tools_are_counted(
    snapshots: Seq<ToolSnapshot>,
    snapshot: ToolSnapshot,
    state: ToolState,
)
    ensures
        count_in(Seq::empty(), state) == 0,
        snapshot.state == state ==> count_in(snapshots.push(snapshot), state) == count_in(
            snapshots,
            state,
        ) + 1,
        snapshot.state != state ==> count_in(snapshots.push(snapshot), state) == count_in(
            snapshots,
            state,
        ),
{
    assert(snapshots.push(snapshot).drop_last() =~= snapshots);
}

/// A number of more than 53 binary digits is rounded to the nearest one that 53 of them can write,
/// and to the even one of two that are as near.
pub proof fn law_large_numbers_are_rounded(n: nat, k: nat)
    requires
        0x10_0000_0000_0000 * power_of_two(k) <= n < 0x20_0000_0000_0000 * power_of_two(k),
    ensures
        power_of_two(0) == 1,
        power_of_two(k + 1) == 2 * power_of_two(k),
        rounded(n) == nearest(n, power_of_two(k)) * power_of_two(k),
{
    lemma_extra_digits_are(n, k);
}

proof fn lemma_extra_digits_are(n: nat, k: nat)
    requires
        0x10_0000_0000_0000 * power_of_two(k) <= n < 0x20_0000_0000_0000 * power_of_two(k),
    ensures
        extra_digits(n) == k,
    decreases k,
{
    assert(power_of_two(0) == 1);
    if k > 0 {
        let unit = power_of_two((k - 1) as nat);
        lemma_power_positive((k - 1) as nat);
        assert(power_of_two(k) == 2 * unit);
        assert(0x10_0000_0000_0000 * unit <= n / 2 < 0x20_0000_0000_0000 * unit);
        lemma_extra_digits_are(n / 2, (k - 1) as nat);
        assert(n >= 0x20_0000_0000_0000);
    }
}

} // verus!
