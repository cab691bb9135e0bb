//! Where the files of the manager lie. A path is the sequence of its bytes.
use vstd::prelude::*;
#[allow(unused_imports)]
use vstd::utf8::encode_utf8;
use vstd::slice::slice_subrange;
use crate::launch::Platform;
use crate::text::{chars_of, lower_of, same_text, text_of};
#[allow(unused_imports)]
use crate::text::{ascii_lowercase, last_where, lemma_last_where_is};

verus! {

/// The byte between two parts of a path.
pub const SEPARATOR: u8 = 47;

/// The files and directories that the manager uses.
pub struct AppPaths {
    pub config_file: Vec<u8>,
    pub log_directory: Vec<u8>,
    pub state_directory: Vec<u8>,
}

/// The directories that the environment names.
pub struct Environment {
    pub home: Option<Vec<u8>>,
    pub config_home: Option<Vec<u8>>,
    pub state_home: Option<Vec<u8>>,
}

/// The environment names no home directory.
#[derive(Clone, Copy, Debug, PartialEq, Eq, Structural)]
pub struct HomeMissing;

/// The path of `name` below `base`. An absolute `name` stands for itself.
pub open spec fn join(base: Seq<u8>, name: Seq<u8>) -> Seq<u8> {
    if name.len() > 0 && name[0] == SEPARATOR {
        name
    } else if base.len() == 0 || base.last() == SEPARATOR {
        base + name
    } else {
        base.push(SEPARATOR) + name
    }
}

/// The path of the file `name` below `base`.
pub open spec fn below(base: Seq<u8>, name: Seq<char>) -> Seq<u8> {
    join(base, encode_utf8(name))
}

/// A copy of `bytes`.
pub fn copy_of(bytes: &[u8]) -> (copy: Vec<u8>)
    ensures
        copy@ == bytes@,
{
    let mut copy: Vec<u8> = Vec::new();
    append(&mut copy, bytes);
    assert(copy@ =~= bytes@);
    copy
}

/// Appends `bytes`.
pub fn append(out: &mut Vec<u8>, bytes: &[u8])
    ensures
        final(out)@ == old(out)@ + bytes@,
{
    let ghost before = out@;
    for i in 0..bytes.len()
        invariant
            out@ == before + bytes@.take(i as int),
    {
        out.push(bytes[i]);
        assert(bytes@.take(i + 1) =~= bytes@.take(i as int).push(bytes@[i as int]));
    }
    assert(bytes@.take(bytes@.len() as int) =~= bytes@);
}

/// The path of `name` below `base`.
pub fn join_bytes(base: &[u8], name: &[u8]) -> (path: Vec<u8>)
    ensures
        path@ == join(base@, name@),
{
    if name.len() > 0 && name[0] == SEPARATOR {
        return copy_of(name);
    }
    let mut path = copy_of(base);
    if base.len() > 0 && base[base.len() - 1] != SEPARATOR {
        path.push(SEPARATOR);
    }
    append(&mut path, name);
    path
}

/// The path of the file `name` below `base`.
pub fn join_name(base: &[u8], name: &str) -> (path: Vec<u8>)
    ensures
        path@ == below(base@, name@),
{
    join_bytes(base, name.as_bytes())
}

/// The directory of a user's configuration files.
pub open spec fn config_home_of(environment: Environment) -> Seq<u8> {
    match environment.config_home {
        Some(directory) => directory@,
        None => below(environment.home->0@, ".config"@),
    }
}

/// The directory of a user's state files.
pub open spec fn state_home_of(environment: Environment) -> Seq<u8> {
    match environment.state_home {
        Some(directory) => directory@,
        None => below(environment.home->0@, ".local/state"@),
    }
}

/// The directory of the manager's own state.
pub open spec fn state_directory_of(environment: Environment) -> Seq<u8> {
    below(state_home_of(environment), "winkeeper"@)
}

/// The files and directories of the manager, by the environment and by the configuration file
/// that was asked for.
pub fn paths(environment: &Environment, config_override: Option<Vec<u8>>) -> (paths: Result<
    AppPaths,
    HomeMissing,
>)
    ensures
        match paths {
            Ok(paths) => {
                &&& environment.home is Some
                &&& paths.config_file@ == (match config_override {
                    Some(file) => file@,
                    None => below(config_home_of(*environment), "winkeeper/config.toml"@),
                })
                &&& paths.state_directory@ == state_directory_of(*environment)
                &&& paths.log_directory@ == below(state_directory_of(*environment), "logs"@)
            },
            Err(_) => environment.home is None,
        },
{
    let home = match &environment.home {
        Some(home) => home,
        None => return Err(HomeMissing),
    };
    let config_home = match &environment.config_home {
        Some(directory) => copy_of(directory.as_slice()),
        None => join_name(home.as_slice(), ".config"),
    };
    let state_home = match &environment.state_home {
        Some(directory) => copy_of(directory.as_slice()),
        None => join_name(home.as_slice(), ".local/state"),
    };
    let config_file = match config_override {
        Some(file) => file,
        None => join_name(config_home.as_slice(), "winkeeper/config.toml"),
    };
    let state_directory = join_name(state_home.as_slice(), "winkeeper");
    let log_directory = join_name(state_directory.as_slice(), "logs");
    Ok(AppPaths { config_file, log_directory, state_directory })
}

/// The directory and the file that start the manager with the user's session.
pub fn autostart_paths(environment: &Environment) -> (paths: Result<(Vec<u8>, Vec<u8>), HomeMissing>)
    ensures
        match paths {
            Ok((directory, file)) => {
                &&& environment.home is Some
                &&& directory@ == below(config_home_of(*environment), "autostart"@)
                &&& file@ == below(directory@, "winkeeper.desktop"@)
            },
            Err(_) => environment.home is None,
        },
{
    let home = match &environment.home {
        Some(home) => home,
        None => return Err(HomeMissing),
    };
    let config_home = match &environment.config_home {
        Some(directory) => copy_of(directory.as_slice()),
        None => join_name(home.as_slice(), ".config"),
    };
    let directory = join_name(config_home.as_slice(), "autostart");
    let file = join_name(directory.as_slice(), "winkeeper.desktop");
    Ok((directory, file))
}

/// Why the files of the manager have no place: the environment of Windows names no directory
/// for the data of applications.
#[derive(Clone, Copy, Debug, PartialEq, Eq, Structural)]
pub struct AppDataMissing;

/// The byte between two parts of a path on Windows. There `SEPARATOR` is one too.
pub const WINDOWS_SEPARATOR: u8 = 92;

/// Whether a path of Windows is a drive alone, such as `C:`, which stands for the directory that
/// is current on it.
pub open spec fn is_drive(path: Seq<u8>) -> bool {
    &&& path.len() == 2
    &&& 65 <= path[0] <= 90 || 97 <= path[0] <= 122
    &&& path[1] == 58
}

/// The path of the file `name` below `base` on Windows.
pub open spec fn below_on_windows(base: Seq<u8>, name: Seq<char>) -> Seq<u8> {
    if base.len() == 0 || base.last() == SEPARATOR || base.last() == WINDOWS_SEPARATOR || is_drive(
        base,
    ) {
        base + encode_utf8(name)
    } else {
        base.push(WINDOWS_SEPARATOR) + encode_utf8(name)
    }
}

fn join_on_windows(base: &[u8], name: &str) -> (path: Vec<u8>)
    ensures
        path@ == below_on_windows(base@, name@),
{
    let mut path = copy_of(base);
    let total: usize = base.len();
    if total > 0 {
        let last: u8 = base[total - 1];
        let drive = total == 2 && last == 58 && ((65 <= base[0] && base[0] <= 90) || (97 <= base[0]
            && base[0] <= 122));
        if last != SEPARATOR && last != WINDOWS_SEPARATOR && !drive {
            path.push(WINDOWS_SEPARATOR);
        }
    }
    append(&mut path, name.as_bytes());
    path
}

/// The path of the file `name` below `base` on a system.
pub open spec fn below_on(platform: Platform, base: Seq<u8>, name: Seq<char>) -> Seq<u8> {
    match platform {
        Platform::Linux => below(base, name),
        Platform::Windows => below_on_windows(base, name),
    }
}

/// The path of the file `name` below `base` on a system.
pub fn join_on(platform: Platform, base: &[u8], name: &str) -> (path: Vec<u8>)
    ensures
        path@ == below_on(platform, base@, name@),
{
    match platform {
        Platform::Linux => join_name(base, name),
        Platform::Windows => join_on_windows(base, name),
    }
}

/// The files and directories of the manager on Windows, by the directory for the data of
/// applications and by the configuration file that was asked for.
pub fn windows_paths(appdata: &Option<Vec<u8>>, config_override: Option<Vec<u8>>) -> (paths: Result<
    AppPaths,
    AppDataMissing,
>)
    ensures
        match paths {
            Ok(paths) => {
                &&& appdata is Some
                &&& paths.state_directory@ == below_on_windows(appdata->0@, "WinKeeper"@)
                &&& paths.log_directory@ == below_on_windows(paths.state_directory@, "logs"@)
                &&& paths.config_file@ == (match config_override {
                    Some(file) => file@,
                    None => below_on_windows(paths.state_directory@, "config.toml"@),
                })
            },
            Err(_) => appdata is None,
        },
{
    let appdata = match appdata {
        Some(appdata) => appdata,
        None => return Err(AppDataMissing),
    };
    let state_directory = join_on_windows(appdata.as_slice(), "WinKeeper");
    let log_directory = join_on_windows(state_directory.as_slice(), "logs");
    let config_file = match config_override {
        Some(file) => file,
        None => join_on_windows(state_directory.as_slice(), "config.toml"),
    };
    Ok(AppPaths { config_file, log_directory, state_directory })
}

/// Whether a directory of the given name is the manager's own, in which nobody else keeps
/// files.
pub fn is_own_directory(name: &str) -> (own: bool)
    ensures
        own == (ascii_lowercase(name@) == "winkeeper"@),
{
    let chars = chars_of(name);
    let lower = lower_of(chars.as_slice());
    let text = text_of(lower.as_slice());
    same_text(text.as_str(), "winkeeper")
}

/// The permissions of a directory that only its owner may use.
pub const PRIVATE_DIRECTORY_MODE: u32 = 0o700;

/// The permissions of a file that only its owner may use.
pub const PRIVATE_FILE_MODE: u32 = 0o600;

// ---------------------------------------------------------------------------
// The directory of a file
// ---------------------------------------------------------------------------

/// Whether a character separates the parts of a path on a system.
pub open spec fn separates(platform: Platform, c: char) -> bool {
    c == '/' || (platform == Platform::Windows && c == '\\')
}

/// `separates` as a property.
pub open spec fn separator(platform: Platform) -> spec_fn(char) -> bool {
    |c: char| separates(platform, c)
}

/// The place of the first separator from `start` on, or the length.
pub open spec fn part_end(platform: Platform, path: Seq<char>, start: int) -> int
    decreases path.len() - start,
{
    if start >= path.len() || separates(platform, path[start]) {
        start
    } else {
        part_end(platform, path, start + 1)
    }
}

/// The length of what stands before the parts of a path on Windows: a drive, such as `C:`, or
/// the name of a server and of what it shares, such as `\\server\share`. Other paths that start
/// with two separators are read as such names too.
pub open spec fn prefix_len(platform: Platform, path: Seq<char>) -> int {
    let server = part_end(platform, path, 2);
    let share = part_end(platform, path, server + 1);
    if platform == Platform::Linux || path.len() < 2 {
        0
    } else if path[1] == ':' && ('a' <= path[0] <= 'z' || 'A' <= path[0] <= 'Z') {
        2
    } else if separates(platform, path[0]) && separates(platform, path[1]) && server > 2 && server
        < path.len() && share > server + 1 {
        share
    } else {
        0
    }
}

/// Whether a path starts at a root.
pub open spec fn has_root(platform: Platform, path: Seq<char>) -> bool {
    let start = prefix_len(platform, path);
    start < path.len() && separates(platform, path[start])
}

/// Whether a path starts with the directory that is current.
pub open spec fn has_dot(platform: Platform, path: Seq<char>) -> bool {
    let start = prefix_len(platform, path);
    &&& start < path.len()
    &&& path[start] == '.'
    &&& start + 1 == path.len() || separates(platform, path[start + 1])
}

/// The length of what stands before the parts of a path.
pub open spec fn head_len(platform: Platform, path: Seq<char>) -> int {
    prefix_len(platform, path) + if has_root(platform, path) || has_dot(platform, path) {
        1int
    } else {
        0
    }
}

/// Where the last part of a path ends that stands before its last separator, or its head.
pub open spec fn cut(platform: Platform, path: Seq<char>, head: int) -> int {
    let last = last_where(path.skip(head), separator(platform));
    if last < 0 {
        head
    } else {
        head + last
    }
}

/// What stands behind the last separator of a path, or its head.
pub open spec fn final_part(platform: Platform, path: Seq<char>, head: int) -> Seq<char> {
    let last = last_where(path.skip(head), separator(platform));
    path.skip(
        if last < 0 {
            head
        } else {
            head + last + 1
        },
    )
}

/// A path without the parts at its end that name nothing: empty ones, and the directory that
/// they stand in.
pub open spec fn tidied(platform: Platform, path: Seq<char>, head: int) -> Seq<char>
    decreases path.len(),
{
    if head < 0 || path.len() <= head {
        path
    } else {
        let end = final_part(platform, path, head);
        if end.len() == 0 || end == seq!['.'] {
            proof {
                crate::text::lemma_last_where(path.skip(head), separator(platform));
            }
            tidied(platform, path.take(cut(platform, path, head)), head)
        } else {
            path
        }
    }
}

/// The path without its last part: the directory of what it leads to. There is none for an
/// empty path, nor for a root or a drive alone; that of a single name is empty.
pub open spec fn directory(platform: Platform, path: Seq<char>) -> Option<Seq<char>> {
    let head = head_len(platform, path);
    let whole = tidied(platform, path, head);
    if whole.len() > head {
        Some(tidied(platform, whole.take(cut(platform, whole, head)), head))
    } else if has_dot(platform, path) && prefix_len(platform, path) == 0 {
        Some(Seq::empty())
    } else {
        None
    }
}

fn char_separates(platform: Platform, c: char) -> (yes: bool)
    ensures
        yes == separates(platform, c),
{
    c == '/' || (platform == Platform::Windows && c == '\\')
}

fn find_part_end(platform: Platform, path: &[char], start: usize) -> (end: usize)
    requires
        start <= path@.len(),
    ensures
        end == part_end(platform, path@, start as int),
        start <= end <= path@.len(),
{
    let mut end: usize = start;
    while end < path.len() && !char_separates(platform, path[end])
        invariant
            start <= end <= path@.len(),
            part_end(platform, path@, start as int) == part_end(platform, path@, end as int),
        decreases path@.len() - end,
    {
        end += 1;
    }
    end
}

fn prefix_length(platform: Platform, path: &[char]) -> (length: usize)
    ensures
        length == prefix_len(platform, path@),
        length <= path@.len(),
{
    let total: usize = path.len();
    if platform == Platform::Linux || total < 2 {
        return 0;
    }
    let first = path[0];
    if path[1] == ':' && (('a' <= first && first <= 'z') || ('A' <= first && first <= 'Z')) {
        return 2;
    }
    if char_separates(platform, first) && char_separates(platform, path[1]) {
        let server = find_part_end(platform, path, 2);
        if server > 2 && server < total {
            let share = find_part_end(platform, path, server + 1);
            if share > server + 1 {
                return share;
            }
        }
    }
    0
}

fn cut_at(platform: Platform, path: &[char], head: usize) -> (place: (usize, usize))
    requires
        head < path@.len(),
    ensures
        place.0 == cut(platform, path@, head as int),
        path@.skip(place.1 as int) == final_part(platform, path@, head as int),
        head <= place.0 < path@.len(),
        place.0 <= place.1 <= path@.len(),
{
    let mut i: usize = path.len();
    while i > head
        invariant
            head <= i <= path@.len(),
            forall|j: int| i <= j < path@.len() ==> !separates(platform, path@[j]),
        decreases i,
    {
        i -= 1;
        if char_separates(platform, path[i]) {
            proof {
                lemma_last_where_is(path@.skip(head as int), separator(platform), i - head);
            }
            return (i, i + 1);
        }
    }
    proof {
        lemma_last_where_is(path@.skip(head as int), separator(platform), -1);
    }
    (head, head)
}

fn tidy_end(platform: Platform, path: &[char], head: usize, length: usize) -> (end: usize)
    requires
        length <= path@.len(),
    ensures
        path@.take(end as int) == tidied(platform, path@.take(length as int), head as int),
        end <= length,
    decreases length,
{
    if length <= head {
        return length;
    }
    let rest = slice_subrange(path, 0, length);
    assert(rest@ =~= path@.take(length as int));
    let (before, after) = cut_at(platform, rest, head);
    let ghost last = final_part(platform, rest@, head as int);
    assert(last.len() == length - after);
    if after == length || (after + 1 == length && rest[after] == '.') {
        proof {
            if after < length {
                assert(last[0] == rest@[after as int]);
                assert(last =~= seq!['.']);
            }
            assert(rest@.take(before as int) =~= path@.take(before as int));
        }
        tidy_end(platform, path, head, before)
    } else {
        proof {
            if last == seq!['.'] {
                assert(last[0] == rest@[after as int]);
            }
        }
        length
    }
}

/// The directory of what the path `command` leads to on a system.
pub fn command_directory(command: &str, platform: Platform) -> (found: Option<String>)
    ensures
        match found {
            Some(found) => directory(platform, command@) == Some(found@),
            None => directory(platform, command@) is None,
        },
{
    let path = chars_of(command);
    let chars = path.as_slice();
    let total: usize = chars.len();
    let prefix = prefix_length(platform, chars);
    let root = prefix < total && char_separates(platform, chars[prefix]);
    let dot = prefix < total && chars[prefix] == '.' && (prefix + 1 == total || char_separates(
        platform,
        chars[prefix + 1],
    ));
    let head: usize = if root || dot {
        prefix + 1
    } else {
        prefix
    };
    assert(path@.take(total as int) =~= command@);
    let end = tidy_end(platform, chars, head, total);
    let ghost whole = tidied(platform, command@, head as int);
    if end > head {
        let rest = slice_subrange(chars, 0, end);
        assert(rest@ =~= whole);
        let (before, after) = cut_at(platform, rest, head);
        let last = tidy_end(platform, chars, head, before);
        assert(whole.take(before as int) =~= path@.take(before as int));
        assert(path@.subrange(0, last as int) =~= path@.take(last as int));
        Some(text_of(slice_subrange(chars, 0, last)))
    } else if dot && prefix == 0 {
        Some(String::new())
    } else {
        None
    }
}

/// A name below a directory stands behind it, with one separator between them; an absolute name
/// stands for itself.
pub proof fn law_name_below_a_directory(base: Seq<u8>, name: Seq<u8>)
    ensures
        name.len() > 0 && name[0] == 47 ==> join(base, name) == name,
        !(name.len() > 0 && name[0] == 47) && base.len() > 0 && base.last() != 47 ==> join(
            base,
            name,
        ) == base.push(47) + name,
        !(name.len() > 0 && name[0] == 47) && (base.len() == 0 || base.last() == 47) ==> join(
            base,
            name,
        ) == base + name,
{
}

/// The same on Windows, where a backslash is put between them unless a separator or a bare drive
/// stands before.
pub proof fn law_name_below_a_directory_on_windows(base: Seq<u8>, name: Seq<char>)
    requires
        base.len() > 2,
    ensures
        base.last() != 47 && base.last() != 92 ==> below_on_windows(base, name) == base.push(92)
            + encode_utf8(name),
        base.last() == 47 || base.last() == 92 ==> below_on_windows(base, name) == base
            + encode_utf8(name),
        below_on(Platform::Windows, base, name) == below_on_windows(base, name),
        below_on(Platform::Linux, base, name) == join(base, encode_utf8(name)),
        below(base, name) == join(base, encode_utf8(name)),
{
}

/// The configuration and the state lie where the environment says, and else where they usually lie
/// below the home directory.
pub proof fn law_homes(environment: Environment, home: Vec<u8>, other: Vec<u8>)
    requires
        environment.home == Some(home),
    ensures
        environment.config_home == Some(other) ==> config_home_of(environment) == other@,
        environment.config_home is None ==> config_home_of(environment) == join(
            home@,
            encode_utf8(".config"@),
        ),
        environment.state_home == Some(other) ==> state_home_of(environment) == other@,
        environment.state_home is None ==> state_home_of(environment) == join(
            home@,
            encode_utf8(".local/state"@),
        ),
        state_directory_of(environment) == join(
            state_home_of(environment),
            encode_utf8("winkeeper"@),
        ),
{
}

/// The directory of a file is what stands before the last separator of its path; that of a file at
/// the root is the root, and that of a single name is empty. A root has none, nor has nothing.
pub proof fn law_directory_of_a_file(start: Seq<char>, middle: Seq<char>, name: Seq<char>)
    requires
        middle.len() > 0,
        name.len() > 0,
        middle != seq!['.'],
        name != seq!['.'],
        forall|i: int| 0 <= i < middle.len() ==> #[trigger] middle[i] != '/',
        forall|i: int| 0 <= i < name.len() ==> #[trigger] name[i] != '/',
    ensures
        directory(Platform::Linux, start.push('/') + middle.push('/') + name) == Some(
            start.push('/') + middle,
        ),
        directory(Platform::Linux, seq!['/'] + name) == Some(seq!['/']),
        directory(Platform::Linux, name) == Some(Seq::<char>::empty()),
        directory(Platform::Linux, seq!['/']) is None,
        directory(Platform::Linux, Seq::empty()) is None,
{
    let p = separator(Platform::Linux);
    let linux = Platform::Linux;
    // A path with a directory.
    let path = start.push('/') + middle.push('/') + name;
    let head = head_len(linux, path);
    assert(0 <= head <= 1);
    let at = (start.len() + 1 + middle.len()) as int;
    assert(path[at] == '/');
    assert forall|j: int| at < j < path.len() implies !p(#[trigger] path[j]) by {
        assert(path[j] == name[j - at - 1]);
    }
    lemma_last_cut(linux, path, head, at);
    assert(path.skip(at + 1) =~= name);
    let whole = tidied(linux, path, head);
    assert(whole == path);
    let parent = path.take(at);
    assert(parent =~= start.push('/') + middle);
    let from = start.len() as int;
    assert(parent[from] == '/');
    assert forall|j: int| from < j < parent.len() implies !p(#[trigger] parent[j]) by {
        assert(parent[j] == middle[j - from - 1]);
    }
    if from >= head {
        lemma_last_cut(linux, parent, head, from);
        assert(parent.skip(from + 1) =~= middle);
    } else {
        lemma_no_cut(linux, parent, head);
        assert(parent.skip(head) =~= middle);
    }
    assert(tidied(linux, parent, head) == parent);
    // A file at the root.
    let rooted = seq!['/'] + name;
    assert(rooted[0] == '/');
    assert(head_len(linux, rooted) == 1);
    assert forall|j: int| 1 <= j < rooted.len() implies !p(#[trigger] rooted[j]) by {
        assert(rooted[j] == name[j - 1]);
    }
    lemma_no_cut(linux, rooted, 1);
    assert(rooted.skip(1) =~= name);
    assert(rooted.take(1) =~= seq!['/']);
    // A single name.
    assert(!separates(linux, name[0]));
    assert(!has_dot(linux, name)) by {
        if name[0] == '.' && name.len() == 1 {
            assert(name =~= seq!['.']);
        }
        if name.len() > 1 {
            assert(name[1] != '/');
        }
    }
    lemma_no_cut(linux, name, 0);
    assert(name.skip(0) =~= name);
    assert(name.take(0) =~= Seq::<char>::empty());
}

proof fn lemma_last_cut(platform: Platform, path: Seq<char>, head: int, at: int)
    requires
        0 <= head <= at < path.len(),
        separates(platform, path[at]),
        forall|j: int| at < j < path.len() ==> !separator(platform)(#[trigger] path[j]),
    ensures
        cut(platform, path, head) == at,
        final_part(platform, path, head) == path.skip(at + 1),
{
    let rest = path.skip(head);
    assert(rest[at - head] == path[at]);
    assert forall|j: int| at - head < j < rest.len() implies !separator(platform)(
        #[trigger] rest[j],
    ) by {
        assert(rest[j] == path[j + head]);
    }
    lemma_last_where_is(rest, separator(platform), at - head);
}

proof fn lemma_no_cut(platform: Platform, path: Seq<char>, head: int)
    requires
        0 <= head <= path.len(),
        forall|j: int| head <= j < path.len() ==> !separator(platform)(#[trigger] path[j]),
    ensures
        cut(platform, path, head) == head,
        final_part(platform, path, head) == path.skip(head),
{
    let rest = path.skip(head);
    assert forall|j: int| -1 < j < rest.len() implies !separator(platform)(#[trigger] rest[j]) by {
        assert(rest[j] == path[j + head]);
    }
    lemma_last_where_is(rest, separator(platform), -1);
}

/// On Windows a name that is put below a drive, or below nothing, stands directly behind it.
pub proof fn law_name_below_a_drive(base: Seq<u8>, name: Seq<char>)
    requires
        base.len() <= 2,
    ensures
        base.len() == 0 ==> below_on_windows(base, name) == encode_utf8(name),
        base.len() == 2 && base[1] == 58 && ((65 <= base[0] <= 90) || (97 <= base[0] <= 122))
            ==> below_on_windows(base, name) == base + encode_utf8(name),
        base.len() > 0 && (base.last() == 47 || base.last() == 92) ==> below_on_windows(base, name)
            == base + encode_utf8(name),
        base.len() == 1 && base[0] != 47 && base[0] != 92 ==> below_on_windows(base, name)
            == base.push(92) + encode_utf8(name),
        base.len() == 2 && base[1] != 47 && base[1] != 92 && base[1] != 58 ==> below_on_windows(
            base,
            name,
        ) == base.push(92) + encode_utf8(name),
        base.len() == 2 && base[1] == 58 && !(65 <= base[0] <= 90) && !(97 <= base[0] <= 122)
            ==> below_on_windows(base, name) == base.push(92) + encode_utf8(name),
{
    if base.len() == 0 {
        assert(base + encode_utf8(name) =~= encode_utf8(name));
    }
}

/// Parts of a path are separated by a slash, and on Windows by a backslash too.
pub proof fn law_what_separates_parts(c: char)
    ensures
        separates(Platform::Linux, c) <==> c == '/',
        separates(Platform::Windows, c) <==> c == '/' || c == '\\',
{
}

/// At the end of a path, behind its head, separators do not count, nor does a part that is a single
/// point; any other part does.
pub proof fn law_ends_that_name_nothing(
    platform: Platform,
    path: Seq<char>,
    head: int,
    c: char,
    name: Seq<char>,
)
    requires
        0 <= head <= path.len(),
        separates(platform, c),
        name.len() > 0,
        name != seq!['.'],
        forall|i: int| 0 <= i < name.len() ==> !separates(platform, #[trigger] name[i]),
    ensures
        tidied(platform, path.push(c), head) == tidied(platform, path, head),
        tidied(platform, path.push(c).push('.'), head) == tidied(platform, path, head),
        tidied(platform, path.push(c) + name, head) == path.push(c) + name,
        head == path.len() ==> tidied(platform, path, head) == path,
        head == path.len() ==> tidied(platform, path + name, head) == path + name,
{
    let p = separator(platform);
    let at = path.len() as int;
    let ended = path.push(c);
    assert(ended[at] == c);
    lemma_last_cut(platform, ended, head, at);
    assert(ended.skip(at + 1) =~= Seq::<char>::empty());
    assert(ended.take(at) =~= path);
    let dotted = path.push(c).push('.');
    assert(dotted[at] == c);
    assert(dotted[at + 1] == '.');
    assert(!separates(platform, '.'));
    assert forall|j: int| at < j < dotted.len() implies !p(#[trigger] dotted[j]) by {
        assert(j == at + 1);
    }
    lemma_last_cut(platform, dotted, head, at);
    assert(dotted.skip(at + 1) =~= seq!['.']);
    assert(dotted.take(at) =~= path);
    let named = path.push(c) + name;
    assert(named[at] == c);
    assert forall|j: int| at < j < named.len() implies !p(#[trigger] named[j]) by {
        assert(named[j] == name[j - at - 1]);
    }
    lemma_last_cut(platform, named, head, at);
    assert(named.skip(at + 1) =~= name);
    if head == path.len() {
        let bare = path + name;
        assert forall|j: int| head <= j < bare.len() implies !p(#[trigger] bare[j]) by {
            assert(bare[j] == name[j - head]);
        }
        lemma_no_cut(platform, bare, head);
        assert(bare.skip(head) =~= name);
    }
}

/// The directory of a path is what stands before its last part, without what names nothing at the
/// end of that; where nothing but the head of the path is left, that is its directory.
pub proof fn law_directory_is_before_the_last_part(
    platform: Platform,
    before: Seq<char>,
    c: char,
    name: Seq<char>,
)
    requires
        separates(platform, c),
        name.len() > 0,
        name != seq!['.'],
        forall|i: int| 0 <= i < name.len() ==> !separates(platform, #[trigger] name[i]),
    ensures
        ({
            let path = before.push(c) + name;
            let head = head_len(platform, path);
            head <= before.len() ==> directory(platform, path) == Some(
                tidied(platform, before, head),
            )
        }),
        head_len(platform, before + name) == before.len() ==> directory(platform, before + name)
            == Some(before),
{
    let p = separator(platform);
    let path = before.push(c) + name;
    let head = head_len(platform, path);
    lemma_prefix_len(platform, path);
    lemma_prefix_len(platform, before + name);
    if head <= before.len() {
        law_ends_that_name_nothing(platform, before, head, c, name);
        let at = before.len() as int;
        assert(path[at] == c);
        assert forall|j: int| at < j < path.len() implies !p(#[trigger] path[j]) by {
            assert(path[j] == name[j - at - 1]);
        }
        lemma_last_cut(platform, path, head, at);
        assert(path.take(at) =~= before);
    }
    if head_len(platform, before + name) == before.len() {
        let bare = before + name;
        let end = before.len() as int;
        law_ends_that_name_nothing(platform, before, end, c, name);
        assert forall|j: int| end <= j < bare.len() implies !p(#[trigger] bare[j]) by {
            assert(bare[j] == name[j - end]);
        }
        lemma_no_cut(platform, bare, end);
        assert(bare.take(end) =~= before);
    }
}

proof fn lemma_prefix_len(platform: Platform, path: Seq<char>)
    ensures
        0 <= prefix_len(platform, path),
{
}

/// The head of a path is its root on Linux, where it has one, or the point that it begins with; on
/// Windows a drive may stand before that.
pub proof fn law_head_of_a_path(path: Seq<char>)
    ensures
        path.len() == 0 ==> head_len(Platform::Linux, path) == 0 && head_len(
            Platform::Windows,
            path,
        ) == 0,
        path.len() > 0 && path[0] == '/' ==> head_len(Platform::Linux, path) == 1,
        path == seq!['.'] ==> head_len(Platform::Linux, path) == 1,
        path.len() > 1 && path[0] == '.' && path[1] == '/' ==> head_len(Platform::Linux, path) == 1,
        path.len() > 0 && path[0] != '/' && path[0] != '.' ==> head_len(Platform::Linux, path) == 0,
        path.len() > 1 && path[0] == '.' && path[1] != '/' ==> head_len(Platform::Linux, path) == 0,
        path.len() >= 2 && path[1] == ':' && (('a' <= path[0] <= 'z') || ('A' <= path[0] <= 'Z'))
            ==> {
            &&& path.len() > 2 && (path[2] == '\\' || path[2] == '/') ==> head_len(
                Platform::Windows,
                path,
            ) == 3
            &&& path.len() == 2 || (path[2] != '\\' && path[2] != '/' && path[2] != '.')
                ==> head_len(Platform::Windows, path) == 2
        },
        path.len() > 0 && path[0] != '/' && path[0] != '\\' && path[0] != '.' && (path.len() == 1
            || path[1] != ':') ==> head_len(Platform::Windows, path) == 0,
        path.len() > 1 && (path[0] == '/' || path[0] == '\\') && path[1] != '/' && path[1] != '\\'
            && path[1] != ':' ==> head_len(Platform::Windows, path) == 1,
{
}

/// On Windows a path that begins with two separators, a server and a share has these for its prefix.
pub proof fn law_head_of_a_share(server: Seq<char>, share: Seq<char>, rest: Seq<char>)
    requires
        server.len() > 0,
        share.len() > 0,
        server[0] != ':',
        forall|i: int| 0 <= i < server.len() ==> #[trigger] server[i] != '/' && server[i] != '\\',
        forall|i: int| 0 <= i < share.len() ==> #[trigger] share[i] != '/' && share[i] != '\\',
    ensures
        ({
            let path = seq!['\\', '\\'] + server.push('\\') + share.push('\\') + rest;
            &&& prefix_len(Platform::Windows, path) == server.len() + share.len() + 3
            &&& head_len(Platform::Windows, path) == server.len() + share.len() + 4
        }),
{
    let windows = Platform::Windows;
    let path = seq!['\\', '\\'] + server.push('\\') + share.push('\\') + rest;
    let first = 2 + server.len() as int;
    let second = first + 1 + share.len();
    assert(path[0] == '\\' && path[1] == '\\');
    assert(path[first] == '\\');
    assert(path[second] == '\\');
    assert forall|j: int| 2 <= j < first implies !separates(windows, #[trigger] path[j]) by {
        assert(path[j] == server[j - 2]);
    }
    assert forall|j: int| first + 1 <= j < second implies !separates(
        windows,
        #[trigger] path[j],
    ) by {
        assert(path[j] == share[j - first - 1]);
    }
    lemma_part_ends(windows, path, 2, first);
    lemma_part_ends(windows, path, first + 1, second);
}

proof fn lemma_part_ends(platform: Platform, path: Seq<char>, start: int, end: int)
    requires
        0 <= start <= end < path.len(),
        separates(platform, path[end]),
        forall|j: int| start <= j < end ==> !separates(platform, #[trigger] path[j]),
    ensures
        part_end(platform, path, start) == end,
    decreases end - start,
{
    if start < end {
        assert(!separates(platform, path[start]));
        lemma_part_ends(platform, path, start + 1, end);
    }
}

/// A root has no directory, nor has a drive, nor nothing; that of a single point is empty.
pub proof fn law_paths_without_a_directory(drive: char)
    requires
        ('a' <= drive <= 'z') || ('A' <= drive <= 'Z'),
    ensures
        directory(Platform::Windows, Seq::empty()) is None,
        directory(Platform::Windows, seq![drive, ':']) is None,
        directory(Platform::Windows, seq![drive, ':', '\\']) is None,
        directory(Platform::Windows, seq!['\\']) is None,
        directory(Platform::Windows, seq!['.']) == Some(Seq::<char>::empty()),
        directory(Platform::Linux, seq!['.']) == Some(Seq::<char>::empty()),
{
    law_head_of_a_path(seq![drive, ':']);
    law_head_of_a_path(seq![drive, ':', '\\']);
    assert(prefix_len(Platform::Windows, seq!['\\']) == 0);
    assert(has_root(Platform::Windows, seq!['\\']));
    assert(prefix_len(Platform::Windows, seq!['.']) == 0);
    assert(prefix_len(Platform::Linux, seq!['.']) == 0);
    assert(has_dot(Platform::Windows, seq!['.']));
    assert(has_dot(Platform::Linux, seq!['.']));
}

} // verus!
