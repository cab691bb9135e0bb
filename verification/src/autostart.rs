//! Starting the manager with the user's session.
use vstd::prelude::*;
use crate::text::{lossy_text, replace_char, same_text};
#[allow(unused_imports)]
use crate::text::{law_replaced, lemma_replaced_concat, replaced, utf8_lossy};

verus! {

/// A text in double quotes, with a backslash before each double quote in it.
pub open spec fn quoted(text: Seq<char>) -> Seq<char> {
    "\""@ + replaced(text, '"', "\\\""@) + "\""@
}

/// A text as a value in a desktop entry: what cannot stand in one is written with a backslash.
pub open spec fn escaped(text: Seq<char>) -> Seq<char> {
    replaced(
        replaced(replaced(replaced(text, '\\', "\\\\"@), '\n', "\\n"@), '\t', "\\t"@),
        '\r',
        "\\r"@,
    )
}

fn quote(text: &str) -> (result: String)
    ensures
        result@ == quoted(text@),
{
    let inner = replace_char(text, '"', "\\\"");
    let mut result = "\"".to_owned();
    result.append(inner.as_str());
    result.append("\"");
    result
}

fn escape(text: &str) -> (result: String)
    ensures
        result@ == escaped(text@),
{
    let first = replace_char(text, '\\', "\\\\");
    let second = replace_char(first.as_str(), '\n', "\\n");
    let third = replace_char(second.as_str(), '\t', "\\t");
    replace_char(third.as_str(), '\r', "\\r")
}

/// The desktop entry that starts the program `exe` with the configuration `config_file`, if the
/// program is there.
pub open spec fn desktop_entry(exe: Seq<char>, config_file: Seq<char>) -> Seq<char> {
    "[Desktop Entry]\nType=Application\nName=WinKeeper\nComment=Cross-platform process supervisor\nTryExec="@
        + escaped(exe) + "\nExec="@ + quoted(exe) + " --config "@ + quoted(config_file)
        + " --autostart\nIcon=win-keeper\nStartupWMClass=win-keeper\nTerminal=false\nStartupNotify=false\nX-GNOME-Autostart-enabled=true\n"@
}

/// The desktop entry for paths that are given as texts.
pub fn autostart_text(exe: &str, config_file: &str) -> (entry: String)
    ensures
        entry@ == desktop_entry(exe@, config_file@),
{
    let try_exec = escape(exe);
    let exec = quote(exe);
    let config = quote(config_file);
    let mut entry =
        "[Desktop Entry]\nType=Application\nName=WinKeeper\nComment=Cross-platform process supervisor\nTryExec=".to_owned();
    entry.append(try_exec.as_str());
    entry.append("\nExec=");
    entry.append(exec.as_str());
    entry.append(" --config ");
    entry.append(config.as_str());
    entry.append(
        " --autostart\nIcon=win-keeper\nStartupWMClass=win-keeper\nTerminal=false\nStartupNotify=false\nX-GNOME-Autostart-enabled=true\n",
    );
    entry
}

/// The desktop entry that starts the program with the path `exe` with the configuration in the
/// file `config_file`, if the program is there.
pub fn autostart_entry(exe: &[u8], config_file: &[u8]) -> (entry: String)
    ensures
        entry@ == desktop_entry(utf8_lossy(exe@), utf8_lossy(config_file@)),
{
    let exe = lossy_text(exe);
    let config_file = lossy_text(config_file);
    autostart_text(exe.as_str(), config_file.as_str())
}

/// What is to be done to the desktop entry.
#[derive(Clone, Copy, Debug, PartialEq, Eq, Structural)]
pub enum EntryStep {
    Keep,
    Remove,
    Write,
}

/// What is to be done to the desktop entry, where `current` is what it holds if it can be read
/// and `contents` what it should hold. It is not written again when it holds that.
pub fn entry_step(enabled: bool, exists: bool, current: &Option<String>, contents: &str) -> (step:
    EntryStep)
    ensures
        step == if !enabled {
            if exists {
                EntryStep::Remove
            } else {
                EntryStep::Keep
            }
        } else {
            match *current {
                Some(current) => if current@ == contents@ {
                    EntryStep::Keep
                } else {
                    EntryStep::Write
                },
                None => EntryStep::Write,
            }
        },
{
    if !enabled {
        if exists {
            EntryStep::Remove
        } else {
            EntryStep::Keep
        }
    } else {
        match current {
            Some(current) => if same_text(current.as_str(), contents) {
                EntryStep::Keep
            } else {
                EntryStep::Write
            },
            None => EntryStep::Write,
        }
    }
}

proof fn lemma_replaced(s: Seq<char>, from: char, to: Seq<char>, c: char)
    requires
        forall|i: int| 0 <= i < to.len() ==> to[i] != c,
        c == from || forall|i: int| 0 <= i < s.len() ==> s[i] != c,
    ensures
        forall|i: int| 0 <= i < replaced(s, from, to).len() ==> replaced(s, from, to)[i] != c,
    decreases s.len(),
{
    if s.len() > 0 {
        lemma_replaced(s.drop_last(), from, to, c);
        let before = replaced(s.drop_last(), from, to);
        let whole = replaced(s, from, to);
        assert forall|i: int| 0 <= i < whole.len() implies whole[i] != c by {
            if i < before.len() {
                assert(whole[i] == before[i]);
            } else if s.last() == from {
                assert(whole[i] == to[i - before.len()]);
            } else {
                assert(whole[i] == s.last());
                assert(s[s.len() - 1] != c);
            }
        }
    }
}

/// A value in a desktop entry stays on its line, whatever text it stands for.
pub proof fn law_value_stays_on_its_line(text: Seq<char>)
    ensures
        forall|i: int|
            0 <= i < escaped(text).len() ==> escaped(text)[i] != '\n' && escaped(text)[i] != '\r'
                && escaped(text)[i] != '\t',
{
    reveal_strlit("\\\\");
    reveal_strlit("\\n");
    reveal_strlit("\\t");
    reveal_strlit("\\r");
    let a = replaced(text, '\\', "\\\\"@);
    let b = replaced(a, '\n', "\\n"@);
    let c = replaced(b, '\t', "\\t"@);
    lemma_replaced(a, '\n', "\\n"@, '\n');
    lemma_replaced(b, '\t', "\\t"@, '\n');
    lemma_replaced(c, '\r', "\\r"@, '\n');
    lemma_replaced(b, '\t', "\\t"@, '\t');
    lemma_replaced(c, '\r', "\\r"@, '\t');
    lemma_replaced(c, '\r', "\\r"@, '\r');
}

/// The command that starts the program `exe` with the configuration `config_file`, as it stands
/// in the Windows registry.
pub fn run_key_command(exe: &str, config_file: &str) -> (command: String)
    ensures
        command@ == "\""@ + exe@ + "\" --config \""@ + config_file@ + "\""@,
{
    let mut command = "\"".to_owned();
    command.append(exe);
    command.append("\" --config \"");
    command.append(config_file);
    command.append("\"");
    command
}

proof fn lemma_one_replaced(c: char, from: char, to: Seq<char>)
    ensures
        replaced(seq![c], from, to) == if c == from {
            to
        } else {
            seq![c]
        },
{
    let none = Seq::<char>::empty();
    law_replaced(none, c, from, to);
    assert(none.push(c) =~= seq![c]);
    assert(none + to =~= to);
}

/// A value in a desktop entry is written character by character: a backslash, a line feed, a tab
/// and a carriage return as two characters each, and any other as it is. So the text can be read
/// back.
pub proof fn law_value_is_written_by_character(text: Seq<char>, c: char)
    ensures
        escaped(Seq::empty()) == Seq::<char>::empty(),
        escaped(text.push(c)) == escaped(text) + (if c == '\\' {
            seq!['\\', '\\']
        } else if c == '\n' {
            seq!['\\', 'n']
        } else if c == '\t' {
            seq!['\\', 't']
        } else if c == '\r' {
            seq!['\\', 'r']
        } else {
            seq![c]
        }),
{
    reveal_strlit("\\\\");
    reveal_strlit("\\n");
    reveal_strlit("\\t");
    reveal_strlit("\\r");
    let w = "\\\\"@;
    let x = "\\n"@;
    let y = "\\t"@;
    let z = "\\r"@;
    assert(w =~= seq!['\\', '\\']);
    assert(x =~= seq!['\\', 'n']);
    assert(y =~= seq!['\\', 't']);
    assert(z =~= seq!['\\', 'r']);
    assert(text.push(c) =~= text + seq![c]);
    let c1 = replaced(seq![c], '\\', w);
    let c2 = replaced(c1, '\n', x);
    let c3 = replaced(c2, '\t', y);
    let c4 = replaced(c3, '\r', z);
    let t1 = replaced(text, '\\', w);
    let t2 = replaced(t1, '\n', x);
    let t3 = replaced(t2, '\t', y);
    lemma_replaced_concat(text, seq![c], '\\', w);
    lemma_replaced_concat(t1, c1, '\n', x);
    lemma_replaced_concat(t2, c2, '\t', y);
    lemma_replaced_concat(t3, c3, '\r', z);
    lemma_one_replaced(c, '\\', w);
    lemma_one_replaced(c, '\n', x);
    lemma_one_replaced(c, '\t', y);
    lemma_one_replaced(c, '\r', z);
    lemma_kept('\\', '\\');
    lemma_kept('\\', 'n');
    lemma_kept('\\', 't');
}

proof fn lemma_kept(a: char, b: char)
    ensures
        a != '\n' && b != '\n' ==> replaced(seq![a, b], '\n', "\\n"@) == seq![a, b],
        a != '\t' && b != '\t' ==> replaced(seq![a, b], '\t', "\\t"@) == seq![a, b],
        a != '\r' && b != '\r' ==> replaced(seq![a, b], '\r', "\\r"@) == seq![a, b],
{
    assert(seq![a, b] =~= seq![a] + seq![b]);
    lemma_replaced_concat(seq![a], seq![b], '\n', "\\n"@);
    lemma_replaced_concat(seq![a], seq![b], '\t', "\\t"@);
    lemma_replaced_concat(seq![a], seq![b], '\r', "\\r"@);
    lemma_one_replaced(a, '\n', "\\n"@);
    lemma_one_replaced(b, '\n', "\\n"@);
    lemma_one_replaced(a, '\t', "\\t"@);
    lemma_one_replaced(b, '\t', "\\t"@);
    lemma_one_replaced(a, '\r', "\\r"@);
    lemma_one_replaced(b, '\r', "\\r"@);
}

/// A path in the command of a desktop entry stands in double quotes, with a backslash before each
/// double quote in it.
pub proof fn law_path_is_quoted(text: Seq<char>, c: char)
    ensures
        quoted(Seq::empty()) == seq!['"', '"'],
        quoted(text.push(c)) == quoted(text).drop_last() + (if c == '"' {
            seq!['\\', '"']
        } else {
            seq![c]
        }).push('"'),
{
    reveal_strlit("\"");
    reveal_strlit("\\\"");
    assert("\""@ =~= seq!['"']);
    assert("\\\""@ =~= seq!['\\', '"']);
    assert(text.push(c).drop_last() =~= text);
    assert(quoted(Seq::empty()) =~= seq!['"', '"']);
    assert(quoted(text.push(c)) =~= quoted(text).drop_last() + (if c == '"' {
        seq!['\\', '"']
    } else {
        seq![c]
    }).push('"'));
}

/// The desktop entry tries the program first, and starts it with the configuration, telling it
/// that the session starts it.
pub proof fn law_desktop_entry(exe: Seq<char>, config_file: Seq<char>)
    ensures
        desktop_entry(exe, config_file) == ("[Desktop Entry]\nType=Application\nName=WinKeeper\nComment=Cross-platform process supervisor\nTryExec="@
            + escaped(exe)) + ("\nExec="@ + quoted(exe)) + (" --config "@ + quoted(config_file))
            + " --autostart\nIcon=win-keeper\nStartupWMClass=win-keeper\nTerminal=false\nStartupNotify=false\nX-GNOME-Autostart-enabled=true\n"@,
{
    assert(desktop_entry(exe, config_file) =~= ("[Desktop Entry]\nType=Application\nName=WinKeeper\nComment=Cross-platform process supervisor\nTryExec="@
        + escaped(exe)) + ("\nExec="@ + quoted(exe)) + (" --config "@ + quoted(config_file))
        + " --autostart\nIcon=win-keeper\nStartupWMClass=win-keeper\nTerminal=false\nStartupNotify=false\nX-GNOME-Autostart-enabled=true\n"@);
}

} // verus!
