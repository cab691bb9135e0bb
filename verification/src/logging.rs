//! The log of a tool: its file, which is kept below a size by setting aside what is in it, and
//! its last lines, which are held in memory within bounds.
//!
//! The file is written elsewhere. A log says what is to be done to the file next and is told
//! what came of it.
use std::collections::VecDeque;
use vstd::prelude::*;
use crate::names::{hash_of, replace_extension};
use crate::number::push_hex;
use crate::launch::Platform;
use crate::paths::join_on;
use crate::text::{
    bytes_in, char_is_alphanumeric, chars_of, find_char, lines_of, lossy_text, lower_char,
    lower_of, same_text, strip_trailing, text_of, truncate_utf8,
};
use crate::time::stamp;
use vstd::slice::slice_subrange;
use vstd::utf8::encode_utf8;
#[allow(unused_imports)]
use crate::config::{is_valid, law_log_line_fits_in_file, AppConfig, LOG_LINE_OVERHEAD};
#[allow(unused_imports)]
use crate::names::{hash, lemma_hex_digits, lemma_hex_injective, with_extension};
#[allow(unused_imports)]
use crate::number::hex;
#[allow(unused_imports)]
use crate::paths::below_on;
#[allow(unused_imports)]
use crate::text::{
    ascii_lower, ascii_lowercase, byte_len, first_where, fitting, is_ascii_alphanumeric, is_char,
    joined, law_cut_text_fits, lemma_encode_concat, lines, texts, utf8_lossy, without_trailing,
};
#[allow(unused_imports)]
use crate::time::{has_date, is_offset, time_text, MAX_STAMP_BYTES};

verus! {

// ---------------------------------------------------------------------------
// Names of files
// ---------------------------------------------------------------------------

/// The name of the manager's own log.
pub const MANAGER_LOG: &'static str = "win-keeper-manager.log";

/// How many characters of a tool's name stand in the name of its log where the name itself
/// cannot.
pub const MAX_SAFE_CHARS: usize = 64;

/// Whether a character stands in the name of a log as it is.
pub open spec fn is_plain_char(c: char) -> bool {
    is_ascii_alphanumeric(c) || c == '-' || c == '_'
}

/// Whether the name of a tool, with an ending, names its log. The name of the manager's log is
/// not to be had, in whatever case it is written.
pub open spec fn is_plain_name(name: Seq<char>) -> bool {
    &&& name.len() > 0
    &&& forall|i: int| 0 <= i < name.len() ==> is_plain_char(#[trigger] name[i])
    &&& ascii_lowercase(name) != "win-keeper-manager"@
}

/// A character of a tool's name as it stands in the name of its log.
pub open spec fn safe_char(c: char) -> char {
    if is_plain_char(c) {
        ascii_lower(c)
    } else {
        '_'
    }
}

/// What stands for a name that is not plain.
pub open spec fn safe_start(name: Seq<char>) -> Seq<char> {
    if name.len() == 0 {
        "tool"@
    } else {
        name.take(
            if name.len() < MAX_SAFE_CHARS {
                name.len() as int
            } else {
                MAX_SAFE_CHARS as int
            },
        ).map_values(|c: char| safe_char(c))
    }
}

/// The name of a tool's log.
pub open spec fn log_name(name: Seq<char>) -> Seq<char> {
    if is_plain_name(name) {
        name + ".log"@
    } else {
        safe_start(name).push('-') + hex(hash(encode_utf8(name)) as nat, 16) + ".log"@
    }
}

/// The name that a tool's log had before names that look alike were told apart.
pub open spec fn legacy_log_name(name: Seq<char>) -> Seq<char> {
    name.map_values(
        |c: char|
            if is_plain_char(c) {
                c
            } else {
                '_'
            },
    ) + ".log"@
}

fn char_is_plain(c: char) -> (plain: bool)
    ensures
        plain == is_plain_char(c),
{
    char_is_alphanumeric(c) || c == '-' || c == '_'
}

fn name_is_plain(chars: &[char]) -> (plain: bool)
    ensures
        plain == is_plain_name(chars@),
{
    if chars.len() == 0 {
        return false;
    }
    let mut i: usize = 0;
    while i < chars.len()
        invariant
            i <= chars@.len(),
            forall|j: int| 0 <= j < i ==> is_plain_char(#[trigger] chars@[j]),
        decreases chars@.len() - i,
    {
        if !char_is_plain(chars[i]) {
            return false;
        }
        i += 1;
    }
    let lower = lower_of(chars);
    let folded = text_of(lower.as_slice());
    !same_text(folded.as_str(), "win-keeper-manager")
}

/// The name of the log of the tool `name`.
pub fn tool_log_file_name(name: &str) -> (file_name: String)
    ensures
        file_name@ == log_name(name@),
{
    let chars = chars_of(name);
    if name_is_plain(chars.as_slice()) {
        let mut file_name = name.to_owned();
        file_name.append(".log");
        return file_name;
    }
    let mut file_name = String::new();
    if chars.len() == 0 {
        file_name.append("tool");
        assert(file_name@ =~= safe_start(name@));
    } else {
        let count: usize = if chars.len() < MAX_SAFE_CHARS {
            chars.len()
        } else {
            MAX_SAFE_CHARS
        };
        let mut i: usize = 0;
        while i < count
            invariant
                chars@ == name@,
                i <= count <= chars@.len(),
                file_name@ == name@.take(i as int).map_values(|c: char| safe_char(c)),
            decreases count - i,
        {
            let c = chars[i];
            file_name.push(if char_is_plain(c) { lower_char(c) } else { '_' });
            i += 1;
            assert(file_name@ =~= name@.take(i as int).map_values(|c: char| safe_char(c)));
        }
    }
    file_name.push('-');
    push_hex(&mut file_name, hash_of(name.as_bytes()), 16);
    file_name.append(".log");
    file_name
}

/// The name that the log of the tool `name` had before names that look alike were told apart.
pub fn legacy_tool_log_file_name(name: &str) -> (file_name: String)
    ensures
        file_name@ == legacy_log_name(name@),
{
    let chars = chars_of(name);
    let mut file_name = String::new();
    let ghost f = |c: char|
        if is_plain_char(c) {
            c
        } else {
            '_'
        };
    let mut i: usize = 0;
    while i < chars.len()
        invariant
            chars@ == name@,
            i <= chars@.len(),
            f == (|c: char|
                if is_plain_char(c) {
                    c
                } else {
                    '_'
                }),
            file_name@ == name@.take(i as int).map_values(f),
        decreases chars@.len() - i,
    {
        let c = chars[i];
        file_name.push(if char_is_plain(c) { c } else { '_' });
        i += 1;
        assert(file_name@ =~= name@.take(i as int).map_values(f));
    }
    assert(name@.take(i as int) =~= name@);
    file_name.append(".log");
    file_name
}

/// The name under which what was in a log is set aside.
pub fn backup_file_name(file_name: &str) -> (backup: String)
    ensures
        backup@ == with_extension(file_name@, "log.1"@),
{
    replace_extension(file_name, "log.1")
}

/// No tool's log is the manager's, even where the case of letters in file names does not
/// count.
pub proof fn law_tool_log_is_not_the_managers(name: Seq<char>)
    ensures
        ascii_lowercase(log_name(name)) != "win-keeper-manager.log"@,
{
    reveal_strlit("win-keeper-manager.log");
    reveal_strlit("win-keeper-manager");
    reveal_strlit(".log");
    reveal_strlit("tool");
    let manager = "win-keeper-manager.log"@;
    let lower = ascii_lowercase(log_name(name));
    if is_plain_name(name) {
        if lower == manager {
            assert(ascii_lowercase(name) =~= manager.take(18)) by {
                assert(lower.len() == name.len() + 4);
                assert(manager.len() == 22);
                assert(lower.take(18) =~= ascii_lowercase(name));
            }
            assert(manager.take(18) =~= "win-keeper-manager"@);
        }
    } else {
        let digits = hex(hash(encode_utf8(name)) as nat, 16);
        lemma_hex_digits(hash(encode_utf8(name)) as nat, 16);
        let start = safe_start(name);
        assert(log_name(name)[start.len() as int] == '-');
        assert(lower.len() == start.len() + 21);
        if lower == manager {
            assert(start.len() == 1);
            assert(lower[1] == '-');
            assert(manager[1] == 'i');
        }
    }
}

/// Two tools whose names are plain have different logs.
pub proof fn law_plain_names_have_their_own_logs(a: Seq<char>, b: Seq<char>)
    requires
        is_plain_name(a),
        is_plain_name(b),
        log_name(a) == log_name(b),
    ensures
        a == b,
{
    assert(log_name(a).len() == a.len() + ".log"@.len());
    assert(log_name(b).len() == b.len() + ".log"@.len());
    assert(a =~= log_name(a).take(a.len() as int));
    assert(b =~= log_name(b).take(b.len() as int));
}

/// Two tools whose names are not plain have different logs unless the hashes of the names
/// are the same.
pub proof fn law_hashed_names_have_their_own_logs(a: Seq<char>, b: Seq<char>)
    requires
        !is_plain_name(a),
        !is_plain_name(b),
        log_name(a) == log_name(b),
    ensures
        hash(encode_utf8(a)) == hash(encode_utf8(b)),
{
    reveal_strlit(".log");
    let x = hash(encode_utf8(a)) as nat;
    let y = hash(encode_utf8(b)) as nat;
    lemma_hex_digits(x, 16);
    lemma_hex_digits(y, 16);
    let n = log_name(a).len();
    assert(log_name(a).subrange(n - 20, n - 4) =~= hex(x, 16));
    assert(log_name(b).subrange(n - 20, n - 4) =~= hex(y, 16));
    lemma_hex_injective(x as u64, y as u64);
}

/// The name of a log is one name of a file on any system: it holds ASCII letters, digits, `-`,
/// `_` and dots only, and does not start with a dot.
pub proof fn law_log_name_is_a_file_name(name: Seq<char>)
    ensures
        log_name(name).len() > 4,
        log_name(name)[0] != '.',
        forall|i: int|
            0 <= i < log_name(name).len() ==> is_plain_char(#[trigger] log_name(name)[i])
                || log_name(name)[i] == '.',
{
    reveal_strlit(".log");
    reveal_strlit("tool");
    let whole = log_name(name);
    if !is_plain_name(name) {
        let digits = hex(hash(encode_utf8(name)) as nat, 16);
        lemma_hex_digits(hash(encode_utf8(name)) as nat, 16);
        let start = safe_start(name);
        assert forall|i: int| 0 <= i < whole.len() implies is_plain_char(#[trigger] whole[i])
            || whole[i] == '.' by {
            if i < start.len() {
                assert(whole[i] == start[i]);
            } else if start.len() < i < start.len() + 17 {
                assert(whole[i] == digits[i - start.len() - 1]);
            } else if i >= start.len() + 17 {
                assert(whole[i] == ".log"@[i - start.len() - 17]);
            }
        }
        assert(whole[0] == start[0]);
    } else {
        assert forall|i: int| 0 <= i < whole.len() implies is_plain_char(#[trigger] whole[i])
            || whole[i] == '.' by {
            if i < name.len() {
                assert(whole[i] == name[i]);
            } else {
                assert(whole[i] == ".log"@[i - name.len()]);
            }
        }
        assert(whole[0] == name[0]);
    }
}

// ---------------------------------------------------------------------------
// Logs under their former names
// ---------------------------------------------------------------------------

/// How many of the names have the given former log.
pub open spec fn sharers(names: Seq<Seq<char>>, legacy: Seq<char>) -> nat
    decreases names.len(),
{
    if names.len() == 0 {
        0
    } else {
        sharers(names.drop_last(), legacy) + if legacy_log_name(names.last()) == legacy {
            1nat
        } else {
            0
        }
    }
}

/// Whether the former log of one of the tools is to get the name that the tool's log has now:
/// it was no other's, nor the manager's, and the name has changed.
pub open spec fn migrates(names: Seq<Seq<char>>, name: Seq<char>) -> bool {
    &&& sharers(names, legacy_log_name(name)) == 1
    &&& legacy_log_name(name) != "win-keeper-manager.log"@
    &&& name != "<manager>"@
    &&& log_name(name) != legacy_log_name(name)
}

/// The former logs that are to get other names, each with the name that it is to get, for the
/// first `count` of the tools.
pub open spec fn migrations(names: Seq<Seq<char>>, count: int) -> Seq<(Seq<char>, Seq<char>)>
    decreases count,
{
    if count <= 0 {
        Seq::empty()
    } else {
        let before = migrations(names, count - 1);
        let name = names[count - 1];
        if migrates(names, name) {
            before.push((legacy_log_name(name), log_name(name)))
        } else {
            before
        }
    }
}

/// The texts that a sequence of pairs of strings holds.
pub open spec fn text_pairs(pairs: Seq<(String, String)>) -> Seq<(Seq<char>, Seq<char>)> {
    Seq::new(pairs.len(), |i: int| (pairs[i].0@, pairs[i].1@))
}

fn count_sharers(names: &Vec<String>, legacy: &str) -> (count: usize)
    ensures
        count == sharers(texts(names@), legacy@),
{
    let mut count: usize = 0;
    let mut i: usize = 0;
    assert(texts(names@).take(0) =~= Seq::<Seq<char>>::empty());
    while i < names.len()
        invariant
            count <= i <= names@.len(),
            count == sharers(texts(names@).take(i as int), legacy@),
        decreases names@.len() - i,
    {
        let own = legacy_tool_log_file_name(names[i].as_str());
        proof {
            let upto = texts(names@).take(i + 1);
            assert(upto.drop_last() =~= texts(names@).take(i as int));
            assert(upto.last() == names@[i as int]@);
        }
        if same_text(own.as_str(), legacy) {
            count += 1;
        }
        i += 1;
    }
    assert(texts(names@).take(i as int) =~= texts(names@));
    count
}

// ---------------------------------------------------------------------------
// Lines
// ---------------------------------------------------------------------------

/// What stands behind a line of which a part was left out.
pub open spec fn truncation_mark(truncated: bool) -> Seq<char> {
    if truncated {
        " \u{2026}[truncated]"@
    } else {
        Seq::empty()
    }
}

/// A line of the log.
pub open spec fn log_line(
    stamp: Seq<char>,
    channel: Seq<char>,
    line: Seq<char>,
    max_line_bytes: nat,
) -> Seq<char> {
    stamp + " ["@ + channel + "] "@ + fitting(line, max_line_bytes) + truncation_mark(
        byte_len(line) > max_line_bytes,
    )
}

/// The line of the log for a line that came in on `channel` at the time of `stamp`.
pub fn format_line(stamp: &str, channel: &str, line: &str, max_line_bytes: usize) -> (text: String)
    ensures
        text@ == log_line(stamp@, channel@, line@, max_line_bytes as nat),
        byte_len(line@) <= max_line_bytes ==> text@ == stamp@ + " ["@ + channel@ + "] "@ + line@,
{
    proof {
        law_line_stands_whole_where_it_fits(stamp@, channel@, line@, max_line_bytes as nat);
    }
    let (start, truncated) = truncate_utf8(line, max_line_bytes);
    let mut text = stamp.to_owned();
    text.append(" [");
    text.append(channel);
    text.append("] ");
    text.append(start.as_str());
    if truncated {
        text.append(" \u{2026}[truncated]");
    }
    assert(text@ =~= log_line(stamp@, channel@, line@, max_line_bytes as nat));
    text
}

/// A line that a process has written, without what ends it.
pub fn line_text(text: &str) -> (line: String)
    ensures
        line@ == without_trailing(text@, '\r', '\n'),
{
    let chars = chars_of(text);
    text_of(strip_trailing(chars.as_slice(), '\r', '\n'))
}

/// A line that a process has written, as bytes, without what ends it.
pub fn output_line(bytes: &[u8]) -> (line: String)
    ensures
        line@ == without_trailing(utf8_lossy(bytes@), '\r', '\n'),
{
    let text = lossy_text(bytes);
    line_text(text.as_str())
}

/// A line of the log takes up no more than the line that came in may, its stamp, its channel
/// and nineteen bytes.
pub proof fn law_log_line_is_bounded(
    stamp: Seq<char>,
    channel: Seq<char>,
    line: Seq<char>,
    max_line_bytes: nat,
)
    ensures
        byte_len(log_line(stamp, channel, line, max_line_bytes)) <= byte_len(stamp) + byte_len(
            channel,
        ) + max_line_bytes + 19,
{
    reveal_strlit(" [");
    reveal_strlit("] ");
    reveal_strlit(" \u{2026}[truncated]");
    let cut = fitting(line, max_line_bytes);
    let mark = truncation_mark(byte_len(line) > max_line_bytes);
    law_cut_text_fits(line, max_line_bytes);
    lemma_encode_concat(stamp, " ["@);
    lemma_encode_concat(stamp + " ["@, channel);
    lemma_encode_concat(stamp + " ["@ + channel, "] "@);
    lemma_encode_concat(stamp + " ["@ + channel + "] "@, cut);
    lemma_encode_concat(stamp + " ["@ + channel + "] "@ + cut, mark);
    vstd::utf8::is_ascii_chars_encode_utf8(" ["@);
    vstd::utf8::is_ascii_chars_encode_utf8("] "@);
    if mark.len() > 0 {
        let ascii = "[truncated]"@;
        reveal_strlit("[truncated]");
        assert(mark =~= seq![' ', '\u{2026}'] + ascii);
        lemma_encode_concat(seq![' ', '\u{2026}'], ascii);
        vstd::utf8::is_ascii_chars_encode_utf8(ascii);
        crate::text::lemma_byte_len_push(Seq::empty(), ' ');
        crate::text::lemma_byte_len_push(seq![' '], '\u{2026}');
        assert(Seq::<char>::empty().push(' ') =~= seq![' ']);
        assert(seq![' '].push('\u{2026}') =~= seq![' ', '\u{2026}']);
        assert(byte_len(Seq::<char>::empty()) == 0);
    }
}

/// With a valid configuration, every line of a log fits in an empty file, so that setting the
/// file aside always makes room for it. No stamp is longer than `MAX_STAMP_BYTES`.
pub proof fn law_line_fits_in_empty_file(
    config: AppConfig,
    stamp: Seq<char>,
    channel: Seq<char>,
    line: Seq<char>,
)
    requires
        is_valid(config),
        byte_len(stamp) <= MAX_STAMP_BYTES,
        byte_len(channel) <= 210,
    ensures
        byte_len(
            log_line(stamp, channel, line, config.manager.log_line_max_bytes as nat),
        ) + 1 <= config.manager.log_file_max_bytes,
{
    law_log_line_is_bounded(stamp, channel, line, config.manager.log_line_max_bytes as nat);
    law_log_line_fits_in_file(config);
}

/// The number of bytes that some lines take up.
pub open spec fn total_bytes(held: Seq<Seq<char>>) -> nat
    decreases held.len(),
{
    if held.len() == 0 {
        0
    } else {
        byte_len(held[0]) + total_bytes(held.drop_first())
    }
}

/// Whether lines are few and short enough to be held.
pub open spec fn may_be_held(held: Seq<Seq<char>>, max_lines: nat, max_bytes: nat) -> bool {
    held.len() <= max_lines && total_bytes(held) <= max_bytes
}

/// The last of the lines, as many as may be held.
pub open spec fn tail(held: Seq<Seq<char>>, max_lines: nat, max_bytes: nat) -> Seq<Seq<char>>
    decreases held.len(),
{
    if held.len() == 0 || may_be_held(held, max_lines, max_bytes) {
        held
    } else {
        tail(held.drop_first(), max_lines, max_bytes)
    }
}

proof fn lemma_total_bytes_push(held: Seq<Seq<char>>, line: Seq<char>)
    ensures
        total_bytes(held.push(line)) == total_bytes(held) + byte_len(line),
    decreases held.len(),
{
    if held.len() == 0 {
        assert(held.push(line).drop_first() =~= Seq::<Seq<char>>::empty());
        reveal_with_fuel(total_bytes, 2);
    } else {
        lemma_total_bytes_push(held.drop_first(), line);
        assert(held.push(line).drop_first() =~= held.drop_first().push(line));
    }
}

/// The lines that are held may be.
proof fn lemma_tail_is_held(held: Seq<Seq<char>>, max_lines: nat, max_bytes: nat)
    ensures
        may_be_held(tail(held, max_lines, max_bytes), max_lines, max_bytes),
        tail(held, max_lines, max_bytes).len() <= held.len(),
        tail(held, max_lines, max_bytes) == held.skip(
            held.len() - tail(held, max_lines, max_bytes).len(),
        ),
    decreases held.len(),
{
    if held.len() == 0 || may_be_held(held, max_lines, max_bytes) {
        assert(held.skip(0) =~= held);
    } else {
        lemma_tail_is_held(held.drop_first(), max_lines, max_bytes);
        let t = tail(held, max_lines, max_bytes);
        assert(held.drop_first().skip(held.len() - 1 - t.len()) =~= held.skip(
            held.len() - t.len(),
        ));
    }
}

/// Of the lines that are held, a line more makes the same be held as of all.
proof fn lemma_tail_of_tail(
    held: Seq<Seq<char>>,
    line: Seq<char>,
    max_lines: nat,
    max_bytes: nat,
)
    ensures
        tail(tail(held, max_lines, max_bytes).push(line), max_lines, max_bytes) == tail(
            held.push(line),
            max_lines,
            max_bytes,
        ),
    decreases held.len(),
{
    if held.len() == 0 || may_be_held(held, max_lines, max_bytes) {
    } else {
        lemma_tail_of_tail(held.drop_first(), line, max_lines, max_bytes);
        lemma_total_bytes_push(held, line);
        assert(held.push(line).drop_first() =~= held.drop_first().push(line));
    }
}

/// Lines without the first that takes up no more than the others leave may be held with one
/// more.
proof fn lemma_tail_step(held: Seq<Seq<char>>, line: Seq<char>, max_lines: nat, max_bytes: nat)
    requires
        held.len() > 0,
        held.len() + 1 > max_lines || total_bytes(held) + byte_len(line) > max_bytes,
    ensures
        tail(held.push(line), max_lines, max_bytes) == tail(
            held.drop_first().push(line),
            max_lines,
            max_bytes,
        ),
{
    lemma_total_bytes_push(held, line);
    assert(held.push(line).drop_first() =~= held.drop_first().push(line));
}

// ---------------------------------------------------------------------------
// The log
// ---------------------------------------------------------------------------

/// How much of the end of a file that another process writes is shown, in bytes.
pub const MAX_TAIL_BYTES: u64 = 2 * 1024 * 1024;

/// The state of a log.
pub struct LogModel {
    pub path: Seq<u8>,
    pub line_capacity: nat,
    pub byte_capacity: nat,
    pub max_file_bytes: nat,
    pub max_line_bytes: nat,
    /// Whether the file is open.
    pub open: bool,
    /// How long the file is, as far as is known.
    pub file_bytes: nat,
    /// The lines in memory.
    pub lines: Seq<Seq<char>>,
    /// How long the file was when its end was read last.
    pub external_length: Option<u64>,
    /// Whether it has been said that the file cannot be written.
    pub failure_reported: bool,
}

/// What is to be done to the file for a line.
#[derive(Clone, Copy, Debug, PartialEq, Eq, Structural)]
pub enum FileStep {
    /// Open it.
    Open,
    /// Close it, set it aside and open it anew.
    Rotate,
    /// Write the line.
    Write,
    /// Nothing: the line cannot be written.
    GiveUp,
}

impl LogModel {
    /// Whether the lines in memory are within their bounds.
    pub open spec fn wf(self) -> bool {
        may_be_held(self.lines, self.line_capacity, self.byte_capacity)
    }

    /// How long the file is once a line more is written, as far as 64 bits can tell.
    pub open spec fn length_with(self, line: Seq<char>) -> nat {
        let sum = self.file_bytes + byte_len(line) + 1;
        if sum > u64::MAX {
            u64::MAX as nat
        } else {
            sum
        }
    }

    /// Whether the file is to be set aside before a line is written.
    pub open spec fn is_full(self, line: Seq<char>) -> bool {
        self.file_bytes > 0 && self.length_with(line) > self.max_file_bytes
    }

    /// What is to be done to the file, where it is open, for a line.
    pub open spec fn step_when_open(self, line: Seq<char>) -> FileStep {
        if self.is_full(line) {
            FileStep::Rotate
        } else {
            FileStep::Write
        }
    }

    /// The first thing to be done to the file for a line.
    pub open spec fn first_step(self, line: Seq<char>) -> FileStep {
        if self.open {
            self.step_when_open(line)
        } else {
            FileStep::Open
        }
    }

    /// The log after its file was opened.
    pub open spec fn opened(self, length: u64) -> LogModel {
        LogModel { open: true, file_bytes: length as nat, ..self }
    }

    /// The log after its file was set aside, if it could be, and opened anew.
    pub open spec fn rotated(self, length: u64, moved: bool) -> LogModel {
        LogModel {
            external_length: if moved {
                None
            } else {
                self.external_length
            },
            ..self.opened(length)
        }
    }

    /// The log after a line was written to the file.
    pub open spec fn written(self, line: Seq<char>) -> LogModel {
        LogModel { file_bytes: self.length_with(line), failure_reported: false, ..self }
    }

    /// The log with one line more in memory.
    pub open spec fn pushed(self, line: Seq<char>) -> LogModel {
        LogModel {
            lines: tail(self.lines.push(line), self.line_capacity, self.byte_capacity),
            ..self
        }
    }
}

/// The log of a tool.
pub struct ToolLog {
    path: Vec<u8>,
    line_capacity: usize,
    byte_capacity: usize,
    max_file_bytes: u64,
    max_line_bytes: usize,
    open: bool,
    file_bytes: u64,
    lines: VecDeque<String>,
    buffered_bytes: usize,
    external_length: Option<u64>,
    failure_reported: bool,
}

impl View for ToolLog {
    type V = LogModel;

    closed spec fn view(&self) -> LogModel {
        LogModel {
            path: self.path@,
            line_capacity: self.line_capacity as nat,
            byte_capacity: self.byte_capacity as nat,
            max_file_bytes: self.max_file_bytes as nat,
            max_line_bytes: self.max_line_bytes as nat,
            open: self.open,
            file_bytes: self.file_bytes as nat,
            lines: texts(self.lines@),
            external_length: self.external_length,
            failure_reported: self.failure_reported,
        }
    }
}

/// A log of which nothing is held yet.
pub open spec fn new_log(
    log: LogModel,
    path: Seq<u8>,
    line_capacity: usize,
    byte_capacity: usize,
    max_file_bytes: u64,
    max_line_bytes: usize,
    file_bytes: u64,
) -> bool {
    log == LogModel {
        path,
        line_capacity: line_capacity as nat,
        byte_capacity: byte_capacity as nat,
        max_file_bytes: max_file_bytes as nat,
        max_line_bytes: max_line_bytes as nat,
        open: true,
        file_bytes: file_bytes as nat,
        lines: Seq::empty(),
        external_length: None,
        failure_reported: false,
    }
}

/// The text in the part of a file that was read from `start` on: behind the first line, of
/// which the start may be missing, unless the whole file was read.
pub open spec fn whole_lines(text: Seq<char>, start: u64) -> Seq<char> {
    if start == 0 {
        text
    } else {
        let end = first_where(text, is_char('\n'));
        if end == text.len() {
            Seq::empty()
        } else {
            text.skip(end + 1)
        }
    }
}

impl ToolLog {
    /// Whether the account of the lines in memory is right.
    pub closed spec fn inv(&self) -> bool {
        &&& self@.wf()
        &&& self.buffered_bytes == total_bytes(texts(self.lines@))
    }

    /// The former logs of the tools with the given names that are to get other names, each
    /// with the name that it is to get.
    pub fn migrate_legacy_logs(names: &Vec<String>) -> (renames: Vec<(String, String)>)
        ensures
            text_pairs(renames@) == migrations(texts(names@), names@.len() as int),
    {
        let mut renames: Vec<(String, String)> = Vec::new();
        assert(text_pairs(renames@) =~= migrations(texts(names@), 0));
        let mut i: usize = 0;
        while i < names.len()
            invariant
                i <= names@.len(),
                text_pairs(renames@) == migrations(texts(names@), i as int),
            decreases names@.len() - i,
        {
            let name = names[i].as_str();
            let ghost before = text_pairs(renames@);
            assert(texts(names@)[i as int] == name@);
            let legacy = legacy_tool_log_file_name(name);
            let current = tool_log_file_name(name);
            if count_sharers(names, legacy.as_str()) == 1 && !same_text(legacy.as_str(), MANAGER_LOG)
                && !same_text(name, "<manager>") && !same_text(current.as_str(), legacy.as_str()) {
                let ghost pair = (legacy@, current@);
                renames.push((legacy, current));
                assert(text_pairs(renames@) =~= before.push(pair));
            }
            i += 1;
        }
        renames
    }

    /// The log of the tool `name` in a directory, where its file is `file_bytes` long.
    pub fn new(
        platform: Platform,
        directory: &[u8],
        name: &str,
        line_capacity: usize,
        byte_capacity: usize,
        max_file_bytes: u64,
        max_line_bytes: usize,
        file_bytes: u64,
    ) -> (log: Self)
        ensures
            log.inv(),
            new_log(
                log@,
                below_on(platform, directory@, log_name(name@)),
                line_capacity,
                byte_capacity,
                max_file_bytes,
                max_line_bytes,
                file_bytes,
            ),
    {
        let file_name = tool_log_file_name(name);
        ToolLog::open(
            platform,
            directory,
            file_name.as_str(),
            line_capacity,
            byte_capacity,
            max_file_bytes,
            max_line_bytes,
            file_bytes,
        )
    }

    /// The manager's log in a directory, where its file is `file_bytes` long.
    pub fn new_manager(
        platform: Platform,
        directory: &[u8],
        line_capacity: usize,
        byte_capacity: usize,
        max_file_bytes: u64,
        max_line_bytes: usize,
        file_bytes: u64,
    ) -> (log: Self)
        ensures
            log.inv(),
            new_log(
                log@,
                below_on(platform, directory@, "win-keeper-manager.log"@),
                line_capacity,
                byte_capacity,
                max_file_bytes,
                max_line_bytes,
                file_bytes,
            ),
    {
        ToolLog::open(
            platform,
            directory,
            MANAGER_LOG,
            line_capacity,
            byte_capacity,
            max_file_bytes,
            max_line_bytes,
            file_bytes,
        )
    }

    fn open(
        platform: Platform,
        directory: &[u8],
        file_name: &str,
        line_capacity: usize,
        byte_capacity: usize,
        max_file_bytes: u64,
        max_line_bytes: usize,
        file_bytes: u64,
    ) -> (log: Self)
        ensures
            log.inv(),
            new_log(
                log@,
                below_on(platform, directory@, file_name@),
                line_capacity,
                byte_capacity,
                max_file_bytes,
                max_line_bytes,
                file_bytes,
            ),
    {
        let log = ToolLog {
            path: join_on(platform, directory, file_name),
            line_capacity,
            byte_capacity,
            max_file_bytes,
            max_line_bytes,
            open: true,
            file_bytes,
            lines: VecDeque::new(),
            buffered_bytes: 0,
            external_length: None,
            failure_reported: false,
        };
        assert(log@.lines =~= Seq::<Seq<char>>::empty());
        log
    }

    /// The lines of a message, each of which gets a line of the log.
    pub fn source_lines(message: &str) -> (found: Vec<String>)
        ensures
            texts(found@) == lines(message@),
    {
        let chars = chars_of(message);
        lines_of(chars.as_slice())
    }

    /// The line of this log for a line that came in on `channel` at a time, in milliseconds
    /// since 1970, in a place that is `offset` seconds ahead of UTC.
    pub fn line(&self, unix_ms: i64, offset: i32, channel: &str, line: &str) -> (text: String)
        requires
            has_date(unix_ms as int),
            is_offset(offset as int),
        ensures
            text@ == log_line(
                time_text(unix_ms, offset, "%Y-%m-%d %H:%M:%S%.3f"@),
                channel@,
                line@,
                self@.max_line_bytes,
            ),
            byte_len(text@) <= MAX_STAMP_BYTES + byte_len(channel@) + self@.max_line_bytes + 19,
            byte_len(channel@) <= 210 ==> byte_len(text@) + 1 <= self@.max_line_bytes
                + LOG_LINE_OVERHEAD,
    {
        let time = stamp(unix_ms, offset);
        proof {
            law_log_line_is_bounded(time@, channel@, line@, self.max_line_bytes as nat);
        }
        format_line(time.as_str(), channel, line, self.max_line_bytes)
    }

    /// The first thing to be done to the file for a line.
    pub fn write(&self, line: &str) -> (step: FileStep)
        ensures
            step == self@.first_step(line@),
    {
        if self.open {
            self.step_when_open(line)
        } else {
            FileStep::Open
        }
    }

    fn step_when_open(&self, line: &str) -> (step: FileStep)
        ensures
            step == self@.step_when_open(line@),
    {
        if self.file_bytes > 0 && self.length_with(line) > self.max_file_bytes {
            FileStep::Rotate
        } else {
            FileStep::Write
        }
    }

    fn length_with(&self, line: &str) -> (length: u64)
        ensures
            length == self@.length_with(line@),
    {
        let sum: u128 = self.file_bytes as u128 + bytes_in(line) as u128 + 1;
        if sum > u64::MAX as u128 {
            u64::MAX
        } else {
            sum as u64
        }
    }

    /// Notes that the file was opened and is `length` long, and says what is to be done to it
    /// next for a line.
    pub fn opened(&mut self, length: u64, line: &str) -> (step: FileStep)
        ensures
            final(self)@ == old(self)@.opened(length),
            old(self).inv() ==> final(self).inv(),
            step == old(self)@.opened(length).step_when_open(line@),
    {
        self.open = true;
        self.file_bytes = length;
        self.step_when_open(line)
    }

    /// Notes that the file was closed.
    pub fn closed(&mut self)
        ensures
            final(self)@ == (LogModel { open: false, ..old(self)@ }),
            old(self).inv() ==> final(self).inv(),
    {
        self.open = false;
    }

    /// Notes that the file was set aside, unless that failed, and opened anew, and is `length`
    /// long, and says what is to be done to it next.
    pub fn rotated(&mut self, length: u64, moved: bool) -> (step: FileStep)
        ensures
            final(self)@ == old(self)@.rotated(length, moved),
            old(self).inv() ==> final(self).inv(),
            step == if moved {
                FileStep::Write
            } else {
                FileStep::GiveUp
            },
    {
        self.open = true;
        self.file_bytes = length;
        if moved {
            self.external_length = None;
            FileStep::Write
        } else {
            FileStep::GiveUp
        }
    }

    /// Notes that a line was written to the file.
    pub fn written(&mut self, line: &str)
        ensures
            final(self)@ == old(self)@.written(line@),
            old(self).inv() ==> final(self).inv(),
    {
        self.file_bytes = self.length_with(line);
        self.failure_reported = false;
    }

    /// Notes that something could not be done to the file, and says whether that is to be
    /// reported: it was not since a line was last written.
    pub fn failed(&mut self) -> (report: bool)
        ensures
            final(self)@ == (LogModel { failure_reported: true, ..old(self)@ }),
            old(self).inv() ==> final(self).inv(),
            report == !old(self)@.failure_reported,
    {
        let report = !self.failure_reported;
        self.failure_reported = true;
        report
    }

    /// Holds a line in memory, and of the earlier ones the last that leave room for it.
    pub fn push(&mut self, line: String)
        requires
            old(self).inv(),
        ensures
            final(self).inv(),
            final(self)@ == old(self)@.pushed(line@),
    {
        let size: usize = bytes_in(line.as_str());
        let ghost text = line@;
        let ghost held = self@.lines;
        let ghost max_lines = self.line_capacity as nat;
        let ghost max_bytes = self.byte_capacity as nat;
        while self.lines.len() > 0 && (self.lines.len() >= self.line_capacity || size
            > self.byte_capacity - self.buffered_bytes)
            invariant
                self.inv(),
                self@ == (LogModel { lines: self@.lines, ..old(self)@ }),
                max_lines == self.line_capacity,
                max_bytes == self.byte_capacity,
                size == byte_len(text),
                tail(self@.lines.push(text), max_lines, max_bytes) == tail(
                    held.push(text),
                    max_lines,
                    max_bytes,
                ),
            decreases self.lines@.len(),
        {
            let ghost mid = self@.lines;
            proof {
                lemma_tail_step(mid, text, max_lines, max_bytes);
                assert(mid[0] == self.lines@[0]@);
            }
            let first = self.lines.pop_front();
            if let Some(first) = first {
                let gone: usize = bytes_in(first.as_str());
                assert(texts(self.lines@) =~= mid.drop_first());
                self.buffered_bytes = self.buffered_bytes - gone;
            }
        }
        if self.line_capacity > 0 && size <= self.byte_capacity - self.buffered_bytes {
            let ghost mid = self@.lines;
            proof {
                lemma_total_bytes_push(mid, text);
            }
            self.lines.push_back(line);
            self.buffered_bytes = self.buffered_bytes + size;
            assert(texts(self.lines@) =~= mid.push(text));
            assert(self@.lines == tail(held.push(text), max_lines, max_bytes));
        } else {
            proof {
                let mid = self@.lines;
                assert(mid =~= Seq::<Seq<char>>::empty());
                lemma_total_bytes_push(mid, text);
                assert(mid.push(text).drop_first() =~= Seq::<Seq<char>>::empty());
                reveal_with_fuel(tail, 2);
                assert(self@.lines == tail(held.push(text), max_lines, max_bytes));
            }
        }
    }

    /// The lines in memory as one text.
    pub fn snapshot(&self) -> (text: String)
        ensures
            text@ == joined(self@.lines, "\n"@),
    {
        let mut text = String::new();
        let mut i: usize = 0;
        assert(self@.lines.take(0) =~= Seq::<Seq<char>>::empty());
        while i < self.lines.len()
            invariant
                i <= self.lines@.len(),
                text@ == joined(self@.lines.take(i as int), "\n"@),
            decreases self.lines@.len() - i,
        {
            proof {
                let upto = self@.lines.take(i + 1);
                assert(upto.drop_last() =~= self@.lines.take(i as int));
                assert(upto.last() == self.lines@[i as int]@);
            }
            if i > 0 {
                text.append("\n");
            }
            text.append(self.lines[i].as_str());
            proof {
                reveal_strlit("\n");
                assert(text@ =~= joined(self@.lines.take(i + 1), "\n"@));
            }
            i += 1;
        }
        assert(self@.lines.take(i as int) =~= self@.lines);
        text
    }

    /// From where on the file, which another process writes and which is `length` long now, is
    /// to be read, if it is not as long as when it was read last.
    pub fn snapshot_external(&self, length: u64) -> (start: Option<u64>)
        ensures
            start == if self@.external_length == Some(length) {
                None
            } else if length <= 2_097_152 {
                Some(0u64)
            } else {
                Some((length - 2_097_152) as u64)
            },
    {
        let known = match self.external_length {
            Some(known) => known == length,
            None => false,
        };
        if known {
            None
        } else {
            Some(length.saturating_sub(MAX_TAIL_BYTES))
        }
    }

    /// Takes the bytes of the file from `start` on, when it was `length` long, and holds its last
    /// lines in place of those in memory.
    pub fn external_read(&mut self, length: u64, start: u64, bytes: &[u8])
        requires
            old(self).inv(),
        ensures
            final(self).inv(),
            final(self)@ == (LogModel {
                lines: tail(
                    lines(whole_lines(utf8_lossy(bytes@), start)),
                    old(self)@.line_capacity,
                    old(self)@.byte_capacity,
                ),
                external_length: Some(length),
                ..old(self)@
            }),
    {
        let text = lossy_text(bytes);
        self.external_text(length, start, text.as_str());
    }

    /// Takes the text of the file from `start` on, when it was `length` long, and holds its last
    /// lines in place of those in memory.
    pub fn external_text(&mut self, length: u64, start: u64, text: &str)
        requires
            old(self).inv(),
        ensures
            final(self).inv(),
            final(self)@ == (LogModel {
                lines: tail(
                    lines(whole_lines(text@, start)),
                    old(self)@.line_capacity,
                    old(self)@.byte_capacity,
                ),
                external_length: Some(length),
                ..old(self)@
            }),
    {
        let chars = chars_of(text);
        let total: usize = chars.len();
        let from: usize = if start > 0 {
            let end = find_char(chars.as_slice(), 0, '\n');
            assert(chars@.skip(0) =~= chars@);
            if end == total {
                total
            } else {
                end + 1
            }
        } else {
            0
        };
        assert(chars@.subrange(from as int, total as int) =~= whole_lines(text@, start));
        let found = lines_of(slice_subrange(chars.as_slice(), from, total));
        self.lines = VecDeque::new();
        self.buffered_bytes = 0;
        self.external_length = Some(length);
        let ghost all = texts(found@);
        let ghost max_lines = self.line_capacity as nat;
        let ghost max_bytes = self.byte_capacity as nat;
        assert(self@.lines =~= Seq::<Seq<char>>::empty());
        assert(all.take(0) =~= Seq::<Seq<char>>::empty());
        let mut i: usize = 0;
        while i < found.len()
            invariant
                i <= found@.len(),
                self.inv(),
                all == texts(found@),
                max_lines == self.line_capacity,
                max_bytes == self.byte_capacity,
                self@ == (LogModel {
                    lines: self@.lines,
                    external_length: Some(length),
                    ..old(self)@
                }),
                self@.lines == tail(all.take(i as int), max_lines, max_bytes),
            decreases found@.len() - i,
        {
            proof {
                lemma_tail_of_tail(all.take(i as int), found@[i as int]@, max_lines, max_bytes);
                assert(all.take(i + 1) =~= all.take(i as int).push(found@[i as int]@));
            }
            self.push(found[i].clone());
            i += 1;
        }
        assert(all.take(i as int) =~= all);
    }

    /// The path of the file.
    pub fn path(&self) -> (path: &Vec<u8>)
        ensures
            path@ == self@.path,
    {
        &self.path
    }

    /// How long a line that comes in may be, in bytes.
    pub fn max_line_bytes(&self) -> (max: usize)
        ensures
            max == self@.max_line_bytes,
    {
        self.max_line_bytes
    }
}

// ---------------------------------------------------------------------------
// What holds of every log
// ---------------------------------------------------------------------------

/// However many lines come in, those in memory stay within their bounds, and they are the last
/// that came in.
pub proof fn law_memory_is_bounded(log: LogModel, line: Seq<char>)
    ensures
        log.pushed(line).wf(),
        log.pushed(line).lines.len() <= log.lines.len() + 1,
        log.pushed(line).lines == log.lines.push(line).skip(
            log.lines.len() + 1 - log.pushed(line).lines.len(),
        ),
{
    lemma_tail_is_held(log.lines.push(line), log.line_capacity, log.byte_capacity);
}

/// A line that fits is always held, as the last one.
pub proof fn law_last_line_is_held(log: LogModel, line: Seq<char>)
    requires
        log.line_capacity > 0,
        byte_len(line) <= log.byte_capacity,
    ensures
        log.pushed(line).lines.len() > 0,
        log.pushed(line).lines.last() == line,
{
    lemma_tail_keeps_last(log.lines, line, log.line_capacity, log.byte_capacity);
}

proof fn lemma_tail_keeps_last(
    held: Seq<Seq<char>>,
    line: Seq<char>,
    max_lines: nat,
    max_bytes: nat,
)
    requires
        max_lines > 0,
        byte_len(line) <= max_bytes,
    ensures
        tail(held.push(line), max_lines, max_bytes).len() > 0,
        tail(held.push(line), max_lines, max_bytes).last() == line,
    decreases held.len(),
{
    lemma_total_bytes_push(held, line);
    if !may_be_held(held.push(line), max_lines, max_bytes) {
        if held.len() > 0 {
            lemma_tail_keeps_last(held.drop_first(), line, max_lines, max_bytes);
            assert(held.push(line).drop_first() =~= held.drop_first().push(line));
        }
    }
}

/// As many lines are held as may be: one more would be too many, or too long.
pub proof fn law_no_line_is_dropped_early(log: LogModel, line: Seq<char>)
    ensures
        ({
            let all = log.lines.push(line);
            let held = log.pushed(line).lines;
            held.len() < all.len() ==> !may_be_held(
                all.skip(all.len() - held.len() - 1),
                log.line_capacity,
                log.byte_capacity,
            )
        }),
{
    lemma_tail_is_longest(log.lines.push(line), log.line_capacity, log.byte_capacity);
}

proof fn lemma_tail_is_longest(held: Seq<Seq<char>>, max_lines: nat, max_bytes: nat)
    ensures
        tail(held, max_lines, max_bytes).len() <= held.len(),
        tail(held, max_lines, max_bytes).len() < held.len() ==> !may_be_held(
            held.skip(held.len() - tail(held, max_lines, max_bytes).len() - 1),
            max_lines,
            max_bytes,
        ),
    decreases held.len(),
{
    if held.len() > 0 && !may_be_held(held, max_lines, max_bytes) {
        let rest = held.drop_first();
        lemma_tail_is_longest(rest, max_lines, max_bytes);
        let n = tail(held, max_lines, max_bytes).len();
        if n < rest.len() {
            assert(rest.skip(rest.len() - n - 1) =~= held.skip(held.len() - n - 1));
        } else {
            assert(held.skip(0) =~= held);
        }
    }
}

/// The file of a log stays within its bound: when a line that fits in an empty file is
/// written to a file that is not full for it, the file is no longer than it may be.
pub proof fn law_file_is_bounded(log: LogModel, line: Seq<char>)
    requires
        log.step_when_open(line) == FileStep::Write,
        byte_len(line) + 1 <= log.max_file_bytes <= u64::MAX,
    ensures
        log.written(line).file_bytes <= log.max_file_bytes,
        log.max_file_bytes < u64::MAX ==> log.written(line).file_bytes == log.file_bytes
            + byte_len(line) + 1,
{
}

/// After a full file was set aside and an empty one opened, the next line is written without
/// setting that aside.
pub proof fn law_fresh_file_is_not_full(log: LogModel, line: Seq<char>)
    ensures
        log.rotated(0, true).step_when_open(line) == FileStep::Write,
        log.rotated(0, true).external_length is None,
{
}

/// Two former logs that get other names are not the same, and only a former log that was one
/// tool's alone gets another name.
pub proof fn law_only_unambiguous_logs_migrate(names: Seq<Seq<char>>, i: int, j: int)
    requires
        0 <= i < j < names.len(),
        legacy_log_name(names[i]) == legacy_log_name(names[j]),
    ensures
        !migrates(names, names[i]),
        !migrates(names, names[j]),
{
    lemma_two_sharers(names, i, j);
}

proof fn lemma_one_sharer(names: Seq<Seq<char>>, i: int)
    requires
        0 <= i < names.len(),
    ensures
        sharers(names, legacy_log_name(names[i])) >= 1,
    decreases names.len(),
{
    if i < names.len() - 1 {
        lemma_one_sharer(names.drop_last(), i);
        assert(names.drop_last()[i] == names[i]);
    }
}

proof fn lemma_two_sharers(names: Seq<Seq<char>>, i: int, j: int)
    requires
        0 <= i < j < names.len(),
        legacy_log_name(names[i]) == legacy_log_name(names[j]),
    ensures
        sharers(names, legacy_log_name(names[i])) >= 2,
    decreases names.len(),
{
    let rest = names.drop_last();
    assert(rest[i] == names[i]);
    if j < names.len() - 1 {
        assert(rest[j] == names[j]);
        lemma_two_sharers(rest, i, j);
    } else {
        lemma_one_sharer(rest, i);
    }
}

// ---------------------------------------------------------------------------
// What stands in a log, and what its file comes to
// ---------------------------------------------------------------------------

/// A line that takes up no more than it may stands in the log whole and unmarked, behind its stamp
/// and its channel. Of a longer one stands the longest start that fits, with the mark behind it.
pub proof fn law_line_stands_whole_where_it_fits(
    stamp: Seq<char>,
    channel: Seq<char>,
    line: Seq<char>,
    max_line_bytes: nat,
)
    ensures
        byte_len(line) <= max_line_bytes ==> log_line(stamp, channel, line, max_line_bytes) == stamp
            + " ["@ + channel + "] "@ + line,
        byte_len(line) > max_line_bytes ==> exists|n: int|
            {
                &&& 0 <= n < line.len()
                &&& log_line(stamp, channel, line, max_line_bytes) == stamp + " ["@ + channel
                    + "] "@ + #[trigger] line.take(n) + " \u{2026}[truncated]"@
                &&& byte_len(line.take(n)) <= max_line_bytes
                &&& byte_len(line.take(n + 1)) > max_line_bytes
            },
{
    law_cut_text_fits(line, max_line_bytes);
    let n = fitting(line, max_line_bytes).len() as int;
    if byte_len(line) <= max_line_bytes {
        assert(log_line(stamp, channel, line, max_line_bytes) =~= stamp + " ["@ + channel + "] "@
            + line);
    } else {
        assert(line.take(line.len() as int) =~= line);
        assert(n < line.len());
        assert(log_line(stamp, channel, line, max_line_bytes) == stamp + " ["@ + channel + "] "@
            + line.take(n) + " \u{2026}[truncated]"@);
    }
}

/// The bytes of lines add up.
pub proof fn law_bytes_add_up(held: Seq<Seq<char>>, line: Seq<char>)
    ensures
        total_bytes(Seq::empty()) == 0,
        total_bytes(held.push(line)) == total_bytes(held) + byte_len(line),
        may_be_held(held, 0, 0) <==> held.len() == 0,
{
    lemma_total_bytes_push(held, line);
}

/// A line more in memory is held behind the others, of which the oldest leave as far as they must:
/// what is held is the end of what was there with the line, is within both bounds, and with one
/// line more it would be beyond one of them. Nothing else of the log changes.
pub proof fn law_newest_lines_are_held(log: LogModel, line: Seq<char>)
    ensures
        ({
            let all = log.lines.push(line);
            let after = log.pushed(line);
            let held = after.lines;
            &&& held.len() <= all.len()
            &&& held == all.skip(all.len() - held.len())
            &&& held.len() <= log.line_capacity
            &&& total_bytes(held) <= log.byte_capacity
            &&& held.len() < all.len() ==> held.len() + 1 > log.line_capacity || total_bytes(
                all.skip(all.len() - held.len() - 1),
            ) > log.byte_capacity
            &&& after == (LogModel { lines: held, ..log })
        }),
{
    lemma_tail_is_held(log.lines.push(line), log.line_capacity, log.byte_capacity);
    lemma_tail_is_longest(log.lines.push(line), log.line_capacity, log.byte_capacity);
}

/// A file that is not open is opened first. An open one is set aside before a line exactly if it
/// is not empty and would be longer than it may with the line and its end; otherwise the line is
/// written.
pub proof fn law_file_is_set_aside_when_full(log: LogModel, line: Seq<char>)
    requires
        log.max_file_bytes < u64::MAX,
    ensures
        !log.open ==> log.first_step(line) == FileStep::Open,
        log.open && log.file_bytes > 0 && log.file_bytes + byte_len(line) + 1 > log.max_file_bytes
            ==> log.first_step(line) == FileStep::Rotate,
        log.open && (log.file_bytes == 0 || log.file_bytes + byte_len(line) + 1
            <= log.max_file_bytes) ==> log.first_step(line) == FileStep::Write,
        log.open ==> log.step_when_open(line) == log.first_step(line),
{
}

/// What becomes of a log with its file: opened, it is as long as it was found; written to, it is
/// longer by the line and its end, and a failure may be reported again; set aside, it is as long
/// as the new one was found, and what another process wrote is read anew, unless that failed.
pub proof fn law_file_is_accounted_for(log: LogModel, line: Seq<char>, length: u64)
    ensures
        log.opened(length) == (LogModel { open: true, file_bytes: length as nat, ..log }),
        log.rotated(length, true) == (LogModel {
            open: true,
            file_bytes: length as nat,
            external_length: None,
            ..log
        }),
        log.rotated(length, false) == log.opened(length),
        log.file_bytes + byte_len(line) + 1 <= u64::MAX ==> log.written(line) == (LogModel {
            file_bytes: log.file_bytes + byte_len(line) + 1,
            failure_reported: false,
            ..log
        }),
        log.file_bytes + byte_len(line) + 1 > u64::MAX ==> log.written(line) == (LogModel {
            file_bytes: u64::MAX as nat,
            failure_reported: false,
            ..log
        }),
        log.written(line).lines == log.lines,
        !log.written(line).failure_reported,
{
}

/// The end of a file that another process writes is shown from its first whole line on: all of it
/// where all of it was read, and else what stands behind the first line feed.
pub proof fn law_end_of_a_file(first: Seq<char>, rest: Seq<char>, start: u64)
    requires
        forall|k: int| 0 <= k < first.len() ==> #[trigger] first[k] != '\n',
        start > 0,
    ensures
        whole_lines(first, 0) == first,
        whole_lines(first.push('\n') + rest, 0) == first.push('\n') + rest,
        whole_lines(first, start) == Seq::<char>::empty(),
        whole_lines(first.push('\n') + rest, start) == rest,
{
    crate::text::lemma_first_where_is(first, is_char('\n'), first.len() as int);
    let whole = first.push('\n') + rest;
    let n = first.len() as int;
    assert(whole[n] == '\n');
    assert forall|k: int| 0 <= k < n implies !is_char('\n')(#[trigger] whole[k]) by {
        assert(whole[k] == first[k]);
    }
    crate::text::lemma_first_where_is(whole, is_char('\n'), n);
    assert(whole.skip(n + 1) =~= rest);
}

/// The log of a tool whose name holds ASCII letters, digits, hyphens and underscores alone, and is
/// not the manager's, is called by that name. Any other is called by the start of the name in lower
/// case, with an underscore for what cannot stand there, or by `tool`, and by the hash of the name.
pub proof fn law_name_of_a_log(name: Seq<char>, i: int)
    ensures
        ({
            let plain = name.len() > 0 && (forall|k: int|
                0 <= k < name.len() ==> ('a' <= #[trigger] name[k] <= 'z') || ('A' <= name[k]
                    <= 'Z') || ('0' <= name[k] <= '9') || name[k] == '-' || name[k] == '_')
                && ascii_lowercase(name) != "win-keeper-manager"@;
            let ending = hex(hash(encode_utf8(name)) as nat, 16) + ".log"@;
            &&& plain ==> log_name(name) == name + ".log"@
            &&& !plain ==> log_name(name) == safe_start(name).push('-') + ending
            &&& name.len() == 0 ==> safe_start(name) == "tool"@
            &&& 0 < name.len() <= 64 ==> safe_start(name).len() == name.len()
            &&& name.len() > 64 ==> safe_start(name).len() == 64
            &&& 0 <= i < name.len() && i < 64 ==> safe_start(name)[i] == (if ('a' <= name[i] <= 'z')
                || ('0' <= name[i] <= '9') || name[i] == '-' || name[i] == '_' {
                name[i]
            } else if 'A' <= name[i] <= 'Z' {
                (name[i] as u32 + 32) as char
            } else {
                '_'
            })
            &&& legacy_log_name(name).len() == name.len() + 4
            &&& 0 <= i < name.len() ==> legacy_log_name(name)[i] == (if ('a' <= name[i] <= 'z')
                || ('A' <= name[i] <= 'Z') || ('0' <= name[i] <= '9') || name[i] == '-' || name[i]
                == '_' {
                name[i]
            } else {
                '_'
            })
        }),
{
    reveal_strlit(".log");
    let plain = name.len() > 0 && (forall|k: int|
        0 <= k < name.len() ==> ('a' <= #[trigger] name[k] <= 'z') || ('A' <= name[k] <= 'Z') || (
        '0' <= name[k] <= '9') || name[k] == '-' || name[k] == '_') && ascii_lowercase(name)
        != "win-keeper-manager"@;
    assert(plain == is_plain_name(name)) by {
        if is_plain_name(name) {
            assert forall|k: int| 0 <= k < name.len() implies ('a' <= #[trigger] name[k] <= 'z') || (
            'A' <= name[k] <= 'Z') || ('0' <= name[k] <= '9') || name[k] == '-' || name[k]
                == '_' by {
                assert(is_plain_char(name[k]));
            }
        }
    }
    if !plain {
        assert(log_name(name) =~= safe_start(name).push('-') + (hex(
            hash(encode_utf8(name)) as nat,
            16,
        ) + ".log"@));
    }
}

proof fn lemma_no_sharer(names: Seq<Seq<char>>, legacy: Seq<char>)
    requires
        forall|j: int| 0 <= j < names.len() ==> legacy_log_name(#[trigger] names[j]) != legacy,
    ensures
        sharers(names, legacy) == 0,
    decreases names.len(),
{
    if names.len() > 0 {
        let front = names.drop_last();
        assert forall|j: int| 0 <= j < front.len() implies legacy_log_name(#[trigger] front[j])
            != legacy by {
            assert(front[j] == names[j]);
        }
        lemma_no_sharer(front, legacy);
        assert(legacy_log_name(names[names.len() - 1]) != legacy);
    }
}

proof fn lemma_only_sharer(names: Seq<Seq<char>>, i: int)
    requires
        0 <= i < names.len(),
        forall|j: int|
            0 <= j < names.len() && j != i ==> legacy_log_name(#[trigger] names[j])
                != legacy_log_name(names[i]),
    ensures
        sharers(names, legacy_log_name(names[i])) == 1,
    decreases names.len(),
{
    let front = names.drop_last();
    let n = names.len() - 1;
    assert forall|j: int| 0 <= j < front.len() && j != i implies legacy_log_name(
        #[trigger] front[j],
    ) != legacy_log_name(names[i]) by {
        assert(front[j] == names[j]);
    }
    if i == n {
        lemma_no_sharer(front, legacy_log_name(names[i]));
    } else {
        assert(front[i] == names[i]);
        lemma_only_sharer(front, i);
        assert(legacy_log_name(names[n]) != legacy_log_name(names[i]));
    }
}

/// The former log of a tool gets the name that the tool's log has now exactly if no other tool had
/// the same, it was not the manager's, and the name has changed.
pub proof fn law_former_logs_that_get_new_names(names: Seq<Seq<char>>, i: int)
    requires
        0 <= i < names.len(),
    ensures
        migrates(names, names[i]) <==> (forall|j: int|
            0 <= j < names.len() && j != i ==> legacy_log_name(#[trigger] names[j])
                != legacy_log_name(names[i])) && legacy_log_name(names[i])
            != "win-keeper-manager.log"@ && names[i] != "<manager>"@ && log_name(names[i])
            != legacy_log_name(names[i]),
{
    let unique = forall|j: int|
        0 <= j < names.len() && j != i ==> legacy_log_name(#[trigger] names[j]) != legacy_log_name(
            names[i],
        );
    if unique {
        lemma_only_sharer(names, i);
    } else {
        let j = choose|j: int|
            0 <= j < names.len() && j != i && legacy_log_name(#[trigger] names[j])
                == legacy_log_name(names[i]);
        if i < j {
            lemma_two_sharers(names, i, j);
        } else {
            lemma_two_sharers(names, j, i);
        }
    }
}

/// The renames are those of the tools whose former log gets a new name, one for each, in order.
pub proof fn law_renames_are_in_order(names: Seq<Seq<char>>, count: int)
    requires
        0 <= count < names.len(),
    ensures
        migrations(names, 0) == Seq::<(Seq<char>, Seq<char>)>::empty(),
        migrates(names, names[count]) ==> migrations(names, count + 1) == migrations(
            names,
            count,
        ).push((legacy_log_name(names[count]), log_name(names[count]))),
        !migrates(names, names[count]) ==> migrations(names, count + 1) == migrations(names, count),
{
}

/// A file that may be as long as can be is never set aside.
pub proof fn law_unbounded_file_is_never_full(log: LogModel, line: Seq<char>)
    requires
        log.max_file_bytes >= u64::MAX,
    ensures
        log.step_when_open(line) == FileStep::Write,
{
}

/// A new log is open at its path, with the length of its file and the limits that it was given, and
/// holds no line.
pub proof fn law_new_log(
    log: LogModel,
    path: Seq<u8>,
    line_capacity: usize,
    byte_capacity: usize,
    max_file_bytes: u64,
    max_line_bytes: usize,
    file_bytes: u64,
)
    requires
        new_log(
            log,
            path,
            line_capacity,
            byte_capacity,
            max_file_bytes,
            max_line_bytes,
            file_bytes,
        ),
    ensures
        log.path == path,
        log.line_capacity == line_capacity,
        log.byte_capacity == byte_capacity,
        log.max_file_bytes == max_file_bytes,
        log.max_line_bytes == max_line_bytes,
        log.open,
        log.file_bytes == file_bytes,
        log.lines.len() == 0,
        log.external_length is None,
        !log.failure_reported,
{
}

/// Of the lines of a file as many as are allowed are held, from the last: one more would be too
/// many, or too many bytes.
pub proof fn law_end_of_the_lines_is_held(held: Seq<Seq<char>>, max_lines: nat, max_bytes: nat)
    ensures
        ({
            let kept = tail(held, max_lines, max_bytes);
            &&& kept.len() <= held.len()
            &&& kept == held.skip(held.len() - kept.len())
            &&& kept.len() <= max_lines
            &&& total_bytes(kept) <= max_bytes
            &&& kept.len() < held.len() ==> kept.len() + 1 > max_lines || total_bytes(
                held.skip(held.len() - kept.len() - 1),
            ) > max_bytes
        }),
    decreases held.len(),
{
    if held.len() == 0 || may_be_held(held, max_lines, max_bytes) {
        assert(held.skip(0) =~= held);
    } else {
        let rest = held.drop_first();
        law_end_of_the_lines_is_held(rest, max_lines, max_bytes);
        let kept = tail(rest, max_lines, max_bytes);
        assert(rest.skip(rest.len() - kept.len()) =~= held.skip(held.len() - kept.len()));
        if kept.len() < rest.len() {
            assert(rest.skip(rest.len() - kept.len() - 1) =~= held.skip(
                held.len() - kept.len() - 1,
            ));
        } else {
            assert(held.skip(0) =~= held);
        }
    }
}

/// Names are renamed in pairs, the former before the new one.
pub proof fn law_pairs_of_names(pairs: Seq<(String, String)>, i: int)
    ensures
        text_pairs(pairs).len() == pairs.len(),
        0 <= i < pairs.len() ==> text_pairs(pairs)[i] == (pairs[i].0@, pairs[i].1@),
{
}

} // verus!
