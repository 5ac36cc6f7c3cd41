//! Command-line decisions: which mode to run in and on which files, and
//! where outputs go.
use vstd::prelude::*;
use vstd::string::StringExecFns;

use crate::paths::{
    file_name, join, last_index_of, lemma_file_name_of_suffixed, lemma_last_index_of, parent, std_file_name,
    std_join, std_parent,
};
use crate::text::{ends_with, seq_ends_with, seq_starts_with, starts_with, str_eq};
use crate::crypto::{describes, DecryptError};
use crate::vault::{is_thumbnail_name, is_thumbnail_valv_file, name_of};
use crate::ValvError;

verus! {

/// What the tool does.
#[derive(Debug, Clone, Copy, PartialEq, Eq, Structural)]
pub enum Mode {
    Encrypt,
    Decrypt,
    Mount,
    Unmount,
    SyncDaemon,
    Mounts,
}

/// The subcommands.
#[derive(Debug, Clone, PartialEq, Eq)]
pub enum Command {
    /// Mount a vault directory (default: the current one).
    Mount { vault_dir: Option<String> },
    /// Unmount a mount or vault directory (default: the current one).
    Unmount { target: Option<String> },
    /// List active mounts.
    Mounts,
    /// Encrypt files.
    Encrypt { files: Vec<String> },
    /// Decrypt files.
    Decrypt { files: Vec<String> },
    /// Keep a mount and its vault in step (started by `Mount`).
    SyncDaemon { vault_dir: String, mount_dir: String },
}

/// The parsed command line.
#[derive(Debug, Clone)]
pub struct CliArgs {
    pub command: Option<Command>,
    pub files: Vec<String>,
    pub password: Option<String>,
    pub stdin_password: bool,
    pub output: Option<String>,
    pub watch_pid: Option<u32>,
    pub foreground: bool,
    pub force: bool,
    pub iterations: Option<u32>,
    pub to_stdout: bool,
}

/// The texts of a list of strings.
pub open spec fn texts(v: Seq<String>) -> Seq<Seq<char>> {
    Seq::new(v.len(), |i: int| v[i]@)
}

/// The files given, or the current directory when none were.
pub open spec fn or_current_dir(files: Seq<Seq<char>>) -> Seq<Seq<char>> {
    if files.len() == 0 {
        seq!["."@]
    } else {
        files
    }
}

/// A copy of the list.
fn copy_list(v: &Vec<String>) -> (r: Vec<String>)
    ensures
        texts(r@) == texts(v@),
{
    let mut r: Vec<String> = Vec::new();
    let mut i: usize = 0;
    while i < v.len()
        invariant
            i <= v@.len(),
            r@.len() == i,
            forall|j: int| 0 <= j < i ==> #[trigger] r@[j]@ == v@[j]@,
        decreases v@.len() - i,
    {
        let c = v[i].clone();
        r.push(c);
        i = i + 1;
    }
    assert(texts(r@) =~= texts(v@));
    r
}

/// The list, or `["."]` when it is empty.
fn list_or_current_dir(v: &Vec<String>) -> (r: Vec<String>)
    ensures
        texts(r@) == or_current_dir(texts(v@)),
{
    if v.len() == 0 {
        let mut r: Vec<String> = Vec::new();
        r.push(".".to_owned());
        assert(texts(r@) =~= seq!["."@]);
        r
    } else {
        copy_list(v)
    }
}

/// The one-element list `[s]`.
fn single(s: &String) -> (r: Vec<String>)
    ensures
        texts(r@) == seq![s@],
{
    let mut r: Vec<String> = Vec::new();
    r.push(s.clone());
    assert(texts(r@) =~= seq![s@]);
    r
}

/// What the subcommand `command`, with the top-level `files`, selects.
pub open spec fn command_choice(command: Command, files: Seq<Seq<char>>) -> (Mode, Seq<Seq<char>>) {
    match command {
        Command::Mount { vault_dir } => (
            Mode::Mount,
            match vault_dir {
                Some(d) => seq![d@],
                None => or_current_dir(files),
            },
        ),
        Command::Unmount { target } => (
            Mode::Unmount,
            match target {
                Some(t) => seq![t@],
                None => or_current_dir(files),
            },
        ),
        Command::Mounts => (Mode::Mounts, Seq::empty()),
        Command::Encrypt { files: own } => (
            Mode::Encrypt,
            if own@.len() == 0 {
                files
            } else {
                texts(own@)
            },
        ),
        Command::Decrypt { files: own } => (
            Mode::Decrypt,
            if own@.len() == 0 {
                files
            } else {
                texts(own@)
            },
        ),
        Command::SyncDaemon { vault_dir, mount_dir } => (Mode::SyncDaemon, seq![vault_dir@, mount_dir@]),
    }
}

/// The `encrypt` and `decrypt` subcommands run on the files they name
/// themselves whenever they name any, whatever files are given at the top
/// level (the choice does not depend on those); only when they name none do
/// they take the top-level files. The mode is the subcommand's.
pub proof fn lemma_subcommand_files(own: Vec<String>, files: Seq<Seq<char>>, other_files: Seq<Seq<char>>)
    ensures
        command_choice(Command::Decrypt { files: own }, files).0 == Mode::Decrypt,
        command_choice(Command::Encrypt { files: own }, files).0 == Mode::Encrypt,
        own@.len() > 0 ==> command_choice(Command::Decrypt { files: own }, files).1 == texts(own@),
        own@.len() > 0 ==> command_choice(Command::Encrypt { files: own }, files).1 == texts(own@),
        own@.len() > 0 ==> command_choice(Command::Decrypt { files: own }, files) == command_choice(
            Command::Decrypt { files: own },
            other_files,
        ),
        own@.len() > 0 ==> command_choice(Command::Encrypt { files: own }, files) == command_choice(
            Command::Encrypt { files: own },
            other_files,
        ),
        own@.len() == 0 ==> command_choice(Command::Decrypt { files: own }, files).1 == files,
        own@.len() == 0 ==> command_choice(Command::Encrypt { files: own }, files).1 == files,
{
}

/// The other subcommands: `mount` and `unmount` run on the directory they
/// name, or else on the top-level files (the current directory when there
/// are none); `mounts` runs on nothing; `sync-daemon` runs on its vault and
/// mount directories, in that order.
pub proof fn lemma_other_subcommands(
    dir: Option<String>,
    files: Seq<Seq<char>>,
    vault_dir: String,
    mount_dir: String,
)
    ensures
        command_choice(Command::Mount { vault_dir: dir }, files).0 == Mode::Mount,
        command_choice(Command::Unmount { target: dir }, files).0 == Mode::Unmount,
        dir matches Some(d) ==> command_choice(Command::Mount { vault_dir: dir }, files).1 == seq![d@],
        dir matches Some(d) ==> command_choice(Command::Unmount { target: dir }, files).1 == seq![d@],
        dir is None && files.len() > 0 ==> command_choice(Command::Mount { vault_dir: dir }, files).1 == files,
        dir is None && files.len() > 0 ==> command_choice(Command::Unmount { target: dir }, files).1 == files,
        dir is None && files.len() == 0 ==> command_choice(Command::Mount { vault_dir: dir }, files).1 == seq![
            "."@,
        ],
        dir is None && files.len() == 0 ==> command_choice(Command::Unmount { target: dir }, files).1 == seq![
            "."@,
        ],
        command_choice(Command::Mounts, files) == (Mode::Mounts, Seq::<Seq<char>>::empty()),
        command_choice(Command::SyncDaemon { vault_dir, mount_dir }, files) == (
            Mode::SyncDaemon,
            seq![vault_dir@, mount_dir@],
        ),
{
}

impl CliArgs {
    /// The mode to run in and the files to run on. With a subcommand, the
    /// subcommand decides. Without one, the files given (or the current
    /// directory) are mounted when they are a single directory, decrypted
    /// when any of them is a vault file, and encrypted otherwise;
    /// `is_valv_fn` and `is_dir_fn` say whether a path is a vault file or a
    /// directory.
    pub fn resolve_mode_and_files(
        &self,
        is_valv_fn: impl Fn(&String) -> bool,
        is_dir_fn: impl Fn(&String) -> bool,
    ) -> (r: (Mode, Vec<String>))
        requires
            forall|p: &String| #[trigger] is_valv_fn.requires((p,)),
            forall|p: &String| #[trigger] is_dir_fn.requires((p,)),
        ensures
            match self.command {
                Some(c) => (r.0, texts(r.1@)) == command_choice(c, texts(self.files@)),
                None => {
                    &&& texts(r.1@) == or_current_dir(texts(self.files@))
                    &&& r.0 is Mount || r.0 is Decrypt || r.0 is Encrypt
                    &&& r.0 is Mount ==> r.1@.len() == 1 && is_dir_fn.ensures((&r.1@[0],), true)
                    &&& !(r.0 is Mount) && r.1@.len() == 1 ==> is_dir_fn.ensures((&r.1@[0],), false)
                    &&& r.0 is Decrypt ==> exists|i: int|
                        0 <= i < r.1@.len() && #[trigger] is_valv_fn.ensures((&r.1@[i],), true)
                    &&& r.0 is Encrypt ==> forall|i: int|
                        0 <= i < r.1@.len() ==> #[trigger] is_valv_fn.ensures((&r.1@[i],), false)
                },
            },
    {
        match &self.command {
            Some(cmd) => match cmd {
                Command::Mount { vault_dir } => {
                    let files = match vault_dir {
                        Some(d) => single(d),
                        None => list_or_current_dir(&self.files),
                    };
                    (Mode::Mount, files)
                },
                Command::Unmount { target } => {
                    let files = match target {
                        Some(t) => single(t),
                        None => list_or_current_dir(&self.files),
                    };
                    (Mode::Unmount, files)
                },
                Command::Mounts => {
                    let files: Vec<String> = Vec::new();
                    assert(texts(files@) =~= Seq::<Seq<char>>::empty());
                    (Mode::Mounts, files)
                },
                Command::Encrypt { files } => {
                    let files = if files.len() == 0 {
                        copy_list(&self.files)
                    } else {
                        copy_list(files)
                    };
                    (Mode::Encrypt, files)
                },
                Command::Decrypt { files } => {
                    let files = if files.len() == 0 {
                        copy_list(&self.files)
                    } else {
                        copy_list(files)
                    };
                    (Mode::Decrypt, files)
                },
                Command::SyncDaemon { vault_dir, mount_dir } => {
                    let mut files: Vec<String> = Vec::new();
                    files.push(vault_dir.clone());
                    files.push(mount_dir.clone());
                    assert(texts(files@) =~= seq![vault_dir@, mount_dir@]);
                    (Mode::SyncDaemon, files)
                },
            },
            None => {
                let files = list_or_current_dir(&self.files);
                if files.len() == 1 {
                    let d = is_dir_fn(&files[0]);
                    if d {
                        return (Mode::Mount, files);
                    }
                }
                let mut i: usize = 0;
                while i < files.len()
                    invariant
                        i <= files@.len(),
                        forall|p: &String| #[trigger] is_valv_fn.requires((p,)),
                        self.command is None,
                        texts(files@) == or_current_dir(texts(self.files@)),
                        files@.len() == 1 ==> is_dir_fn.ensures((&files@[0],), false),
                        forall|j: int| 0 <= j < i ==> #[trigger] is_valv_fn.ensures((&files@[j],), false),
                    decreases files@.len() - i,
                {
                    if is_valv_fn(&files[i]) {
                        assert(is_valv_fn.ensures((&files@[i as int],), true));
                        return (Mode::Decrypt, files);
                    }
                    i = i + 1;
                }
                (Mode::Encrypt, files)
            },
        }
    }
}


/// A line-break character.
pub open spec fn is_line_break(c: char) -> bool {
    c == '\r' || c == '\n'
}

/// `line` without the line breaks (`\r`, `\n`) it ends with.
pub fn strip_line_ending(line: &str) -> (r: String)
    ensures
        r@.len() <= line@.len(),
        r@ == line@.subrange(0, r@.len() as int),
        forall|j: int| r@.len() <= j < line@.len() ==> is_line_break(#[trigger] line@[j]),
        r@.len() == 0 || !is_line_break(line@[r@.len() - 1]),
{
    let n = line.unicode_len();
    let mut k = n;
    while k > 0
        invariant
            k <= n,
            n == line@.len(),
            forall|j: int| k <= j < n ==> is_line_break(#[trigger] line@[j]),
        ensures
            k == 0 || !is_line_break(line@[k - 1]),
        decreases k,
    {
        let c = line.get_char(k - 1);
        if c != '\r' && c != '\n' {
            break;
        }
        k = k - 1;
    }
    line.substring_char(0, k).to_owned()
}

/// What must be done before an output file can be written.
#[derive(Debug, Clone, PartialEq, Eq)]
pub enum DirectoryPrep {
    /// Nothing.
    Nothing,
    /// Create this directory (with its parents); failing is an error.
    Create(String),
    /// Try to create this directory (with its parents); failing is ignored.
    CreateParent(String),
}

/// Where an output file goes, and what to prepare first.
#[derive(Debug, Clone)]
pub struct OutputPath {
    pub path: String,
    pub prep: DirectoryPrep,
}

/// An output option names a directory: it is one, it ends with a path
/// separator, or several inputs are written there.
pub open spec fn is_dir_target(out: Seq<char>, out_is_dir: bool, multiple_inputs: bool) -> bool {
    out_is_dir || seq_ends_with(out, "/"@) || seq_ends_with(out, "\\"@) || multiple_inputs
}

/// Where the output named `filename` goes: into the output directory, to
/// the output file, or, without an output option, into `default_dir`.
/// `output_is_dir` says whether the output option names an existing directory.
pub fn resolve_output_path(
    output: Option<&str>,
    default_dir: &str,
    filename: &str,
    multiple_inputs: bool,
    output_is_dir: bool,
) -> (r: OutputPath)
    ensures
        match output {
            Some(out) => if is_dir_target(out@, output_is_dir, multiple_inputs) {
                &&& r.path@ == std_join(out@, filename@)
                &&& r.prep matches DirectoryPrep::Create(d) && d@ == out@
            } else {
                &&& r.path@ == out@
                &&& match std_parent(out@) {
                    Some(p) => if p.len() > 0 {
                        r.prep matches DirectoryPrep::CreateParent(q) && q@ == p
                    } else {
                        r.prep is Nothing
                    },
                    None => r.prep is Nothing,
                }
            },
            None => r.path@ == std_join(default_dir@, filename@) && r.prep is Nothing,
        },
{
    match output {
        Some(out) => {
            if output_is_dir || ends_with(out, "/") || ends_with(out, "\\") || multiple_inputs {
                OutputPath { path: join(out, filename), prep: DirectoryPrep::Create(out.to_owned()) }
            } else {
                let prep = match parent(out) {
                    Some(p) => if p.unicode_len() > 0 {
                        DirectoryPrep::CreateParent(p.to_owned())
                    } else {
                        DirectoryPrep::Nothing
                    },
                    None => DirectoryPrep::Nothing,
                };
                OutputPath { path: out.to_owned(), prep }
            }
        },
        None => OutputPath { path: join(default_dir, filename), prep: DirectoryPrep::Nothing },
    }
}

/// The parent directory of `path`, or `.` when it has none.
pub open spec fn parent_or_current(path: Seq<char>) -> Seq<char> {
    match std_parent(path) {
        Some(p) => p,
        None => "."@,
    }
}

/// The directory an input's output goes to by default: its parent, or `.`.
pub fn default_output_dir(path: &str) -> (r: String)
    ensures
        r@ == parent_or_current(path@),
{
    match parent(path) {
        Some(p) => p.to_owned(),
        None => ".".to_owned(),
    }
}

/// Where the thumbnail `thumb_name` of an encrypted input goes: next to
/// the encrypted file.
pub fn thumbnail_output_path(
    output: Option<&str>,
    output_is_dir: bool,
    multiple_inputs: bool,
    default_dir: &str,
    thumb_name: &str,
) -> (r: String)
    ensures
        r@ == match output {
            Some(out) => if output_is_dir || multiple_inputs {
                std_join(out@, thumb_name@)
            } else {
                std_join(parent_or_current(out@), thumb_name@)
            },
            None => std_join(default_dir@, thumb_name@),
        },
{
    match output {
        Some(out) => if output_is_dir || multiple_inputs {
            join(out, thumb_name)
        } else {
            let dir = default_output_dir(out);
            join(dir.as_str(), thumb_name)
        },
        None => join(default_dir, thumb_name),
    }
}

/// The name an input is stored under in its vault file: its file name, or
/// `file`.
pub fn original_file_name(path: &str) -> (r: String)
    ensures
        r@ == match std_file_name(path@) {
            Some(n) => n,
            None => "file"@,
        },
{
    match file_name(path) {
        Some(n) => n.to_owned(),
        None => "file".to_owned(),
    }
}

/// The `encrypt` and `decrypt` commands need at least one input file; with
/// none they fail with `No input files specified.` (exit status 1).
pub fn check_inputs(files: &Vec<String>) -> (r: Result<(), ValvError>)
    ensures
        files@.len() > 0 <==> r is Ok,
        r matches Err(e) ==> (e matches ValvError::Message(m, code) && m@ == "No input files specified."@
            && code == 1),
{
    if files.len() == 0 {
        Err(ValvError::Message("No input files specified.".to_owned(), 1))
    } else {
        Ok(())
    }
}

/// Whether an output is written to a destination: always when it does not
/// exist yet, and over an existing one only with `-f`.
pub fn writes_destination(dest_exists: bool, force: bool) -> (r: bool)
    ensures
        r == (!dest_exists || force),
{
    !dest_exists || force
}

/// The error the `decrypt` command stops with when a file's header cannot be
/// read: a wrong password keeps its own kind (exit status 2); anything else
/// is reported as `context: ` followed by the header error's text (exit
/// status 1).
pub fn decrypt_failure(e: DecryptError, context: &str) -> (r: ValvError)
    ensures
        match e {
            DecryptError::InvalidPassword => r is InvalidPassword,
            _ => r matches ValvError::Message(m, code) && code == 1 && m@.len() >= context@.len() + 2
                && m@.subrange(0, context@.len() + 2int) == context@ + ": "@ && describes(
                e,
                m@.subrange(context@.len() + 2int, m@.len() as int),
            ),
        },
{
    match e {
        DecryptError::InvalidPassword => ValvError::InvalidPassword,
        other => {
            let text = other.message();
            let mut m = context.to_owned();
            m.append(": ");
            let ghost head = m@;
            m.append(text.as_str());
            proof {
                reveal_strlit(": ");
                assert(m@.subrange(0, context@.len() + 2int) =~= head);
                assert(m@.subrange(context@.len() + 2int, m@.len() as int) =~= text@);
            }
            ValvError::Message(m, 1)
        },
    }
}

/// The name a file is decrypted into by the `decrypt` command: its original
/// name as the header holds it, or `decrypted_file` when that is empty.
pub fn plaintext_name(original_name: &str) -> (r: &str)
    ensures
        r@ == if original_name@.len() == 0 {
            "decrypted_file"@
        } else {
            original_name@
        },
{
    if original_name.unicode_len() == 0 {
        "decrypted_file"
    } else {
        original_name
    }
}

/// The name a file is shown under in a mounted vault: the part of its
/// original name after the last `/`, or `decrypted_file` when that part is
/// empty, `.` or `..`.
pub open spec fn safe_plaintext_name(original: Seq<char>) -> Seq<char> {
    let seg = original.subrange(last_index_of(original, '/') + 1, original.len() as int);
    if seg.len() == 0 || seg == seq!['.'] || seg == seq!['.', '.'] {
        "decrypted_file"@
    } else {
        seg
    }
}

/// The name a file is shown under in a mounted vault (see
/// `safe_plaintext_name`): whatever a header holds, the file stays inside the
/// mount directory, which the README promises lives in memory.
pub fn mount_file_name(original_name: &str) -> (r: &str)
    ensures
        r@ == safe_plaintext_name(original_name@),
{
    let n = original_name.unicode_len();
    let mut k: usize = n;
    while k > 0 && original_name.get_char(k - 1) != '/'
        invariant
            k <= n,
            n == original_name@.len(),
            forall|i: int| k <= i < n ==> original_name@[i] != '/',
        decreases k,
    {
        k = k - 1;
    }
    proof {
        let s = original_name@;
        lemma_last_index_of(s, '/');
        let c = last_index_of(s, '/');
        if k > 0 {
            assert(s[k - 1] == '/');
            assert(c >= k - 1);
        } else {
            assert(c < 0 || s[c] == '/');
        }
        assert(c == k - 1);
    }
    let seg = original_name.substring_char(k, n);
    let m = seg.unicode_len();
    proof {
        reveal_strlit("decrypted_file");
    }
    if m == 0 || (m == 1 && seg.get_char(0) == '.') || (m == 2 && seg.get_char(0) == '.' && seg.get_char(1)
        == '.') {
        proof {
            if m == 1 {
                assert(seg@ =~= seq!['.']);
            }
            if m == 2 {
                assert(seg@ =~= seq!['.', '.']);
            }
        }
        "decrypted_file"
    } else {
        proof {
            if m == 1 {
                assert(seg@ != seq!['.']) by {
                    if seg@ == seq!['.'] {
                        assert(seg@[0] == '.');
                    }
                }
            }
            if m == 2 {
                assert(seg@ != seq!['.', '.']) by {
                    if seg@ == seq!['.', '.'] {
                        assert(seg@[0] == '.' && seg@[1] == '.');
                    }
                }
            }
        }
        seg
    }
}

/// A file shown in a mounted vault lands directly inside the mount directory:
/// its name is one component (no `/`, not empty, `.` or `..`), joining it to
/// the directory only adds that component, and the joined path's file name is
/// the name itself. A header's text cannot steer it elsewhere.
pub proof fn lemma_mount_file_name_stays_inside(dir: Seq<char>, original: Seq<char>)
    ensures
        ({
            let name = safe_plaintext_name(original);
            &&& name.len() > 0
            &&& !name.contains('/')
            &&& name != seq!['.']
            &&& name != seq!['.', '.']
            &&& std_join(dir, name) == (if dir.len() == 0 || dir.last() == '/' {
                dir + name
            } else {
                dir + seq!['/'] + name
            })
            &&& std_file_name(std_join(dir, name)) == Some(name)
        }),
{
    reveal_strlit("decrypted_file");
    let name = safe_plaintext_name(original);
    lemma_last_index_of(original, '/');
    let fallback = "decrypted_file"@;
    assert(fallback =~= seq!['d', 'e', 'c', 'r', 'y', 'p', 't', 'e', 'd', '_', 'f', 'i', 'l', 'e']);
    assert(!name.contains('/')) by {
        if name.contains('/') {
            let j = choose|j: int| 0 <= j < name.len() && name[j] == '/';
            if name != fallback {
                let cut = last_index_of(original, '/');
                assert(original[cut + 1 + j] == '/');
            }
        }
    }
    assert(name != seq!['.'] && name != seq!['.', '.']) by {
        if name == fallback {
            assert(fallback.len() == 14);
        }
    }
    assert(name.len() > 0);
    assert(name[0] != '/') by {
        assert(name.contains(name[0]));
    }
    if dir.len() == 0 || dir.last() == '/' {
        lemma_file_name_of_suffixed(dir, name);
    } else {
        let head = dir + seq!['/'];
        assert(head.last() == '/');
        lemma_file_name_of_suffixed(head, name);
        assert(head + name =~= dir + seq!['/'] + name);
    }
}

/// The file name `other` starts with `stem` and is not `name`.
pub open spec fn is_companion(other: Option<Seq<char>>, stem: Seq<char>, name: Seq<char>) -> bool {
    match other {
        Some(m) => seq_starts_with(m, stem) && m != name,
        None => false,
    }
}

/// When several files are decrypted together, a thumbnail whose full-size
/// file (a name starting with the same stem) is among them is skipped.
pub open spec fn skips_thumbnail(files: Seq<Seq<char>>, file: Seq<char>) -> bool {
    &&& files.len() > 1
    &&& is_thumbnail_name(name_of(file))
    &&& std_file_name(file) is Some
    &&& exists|i: int|
        0 <= i < files.len() && is_companion(
            #[trigger] std_file_name(files[i]),
            name_of(file).subrange(0, name_of(file).len() - "-t.valv"@.len()),
            name_of(file),
        )
}

/// When several files are decrypted together, a thumbnail (a file named
/// `n`, ending in `-t.valv`) is skipped as soon as any file of the list, at
/// any place, has a name that starts with `n` without its `-t.valv` and is
/// not `n` itself.
pub proof fn lemma_thumbnail_skipped_with_companion(
    files: Seq<Seq<char>>,
    file: Seq<char>,
    n: Seq<char>,
    i: int,
    m: Seq<char>,
)
    requires
        files.len() > 1,
        0 <= i < files.len(),
        std_file_name(file) == Some(n),
        seq_ends_with(n, "-t.valv"@),
        std_file_name(files[i]) == Some(m),
        seq_starts_with(m, n.subrange(0, n.len() - 7)),
        m != n,
    ensures
        skips_thumbnail(files, file),
{
    reveal_strlit("-t.valv");
    assert("-t.valv"@.len() == 7);
    assert(is_companion(std_file_name(files[i]), name_of(file).subrange(0, name_of(file).len() - "-t.valv"@.len()), name_of(file)));
}

/// Only a thumbnail decrypted together with other files is ever skipped,
/// and only because some file of the list is a different file whose name
/// starts with the thumbnail's name without its `-t.valv`.
pub proof fn lemma_only_thumbnails_skipped(files: Seq<Seq<char>>, file: Seq<char>)
    ensures
        skips_thumbnail(files, file) ==> {
            &&& files.len() > 1
            &&& is_thumbnail_name(name_of(file))
            &&& exists|i: int|
                0 <= i < files.len() && #[trigger] std_file_name(files[i]) is Some && std_file_name(files[i])->0
                    != name_of(file) && seq_starts_with(
                    std_file_name(files[i])->0,
                    name_of(file).subrange(0, name_of(file).len() - 7),
                )
        },
{
    reveal_strlit("-t.valv");
    assert("-t.valv"@.len() == 7);
    if skips_thumbnail(files, file) {
        let i = choose|i: int|
            0 <= i < files.len() && is_companion(
                #[trigger] std_file_name(files[i]),
                name_of(file).subrange(0, name_of(file).len() - "-t.valv"@.len()),
                name_of(file),
            );
    }
}

/// Whether `file` is a thumbnail to skip because its full-size file is
/// decrypted in the same run.
pub fn should_skip_thumbnail(files: &Vec<String>, file: &str) -> (r: bool)
    ensures
        r == skips_thumbnail(texts(files@), file@),
{
    if files.len() <= 1 || !is_thumbnail_valv_file(file) {
        return false;
    }
    let name = match file_name(file) {
        Some(n) => n,
        None => return false,
    };
    let n = name.unicode_len();
    let m = "-t.valv".unicode_len();
    let stem = name.substring_char(0, n - m);
    let mut i: usize = 0;
    while i < files.len()
        invariant
            i <= files@.len(),
            files@.len() > 1,
            is_thumbnail_name(name_of(file@)),
            std_file_name(file@) == Some(name@),
            stem@ == name@.subrange(0, name@.len() - "-t.valv"@.len()),
            forall|j: int| 0 <= j < i ==> !is_companion(#[trigger] std_file_name(texts(files@)[j]), stem@, name@),
        decreases files@.len() - i,
    {
        let other = files[i].as_str();
        assert(texts(files@)[i as int] == other@);
        match file_name(other) {
            Some(o) => {
                if starts_with(o, stem) && !str_eq(o, name) {
                    assert(is_companion(std_file_name(texts(files@)[i as int]), stem@, name@));
                    return true;
                }
            },
            None => {},
        }
        i = i + 1;
    }
    false
}

} // verus!
