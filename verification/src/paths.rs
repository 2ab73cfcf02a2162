//! Where the application's files are, and where Codex keeps its sessions.

use crate::storage::AppSettings;
use std::path::PathBuf;
use vstd::prelude::*;

verus! {

/// A path of the standard library.
#[verifier::external_type_specification]
#[verifier::external_body]
pub struct ExPathBuf(std::path::PathBuf);

/// A path as text in which invalid Unicode is replaced.
pub uninterp spec fn path_text(path: std::path::PathBuf) -> Seq<char>;

/// Whether two paths have the same components.
pub uninterp spec fn same_place(a: std::path::PathBuf, b: std::path::PathBuf) -> bool;

/// A text that is a single plain component of a path on every platform.
pub open spec fn plain_name(name: Seq<char>) -> bool {
    &&& name.len() > 0
    &&& name != "."@
    &&& name != ".."@
    &&& forall|i: int|
        0 <= i < name.len() ==> (#[trigger] name[i]) != '/' && name[i] != '\\' && name[i] != ':'
}

/// A Windows path that is handed to the system as it stands.
pub open spec fn verbatim(path: Seq<char>) -> bool {
    r"\\?\"@.is_prefix_of(path)
}

/// A text after which a name can follow without a separator.
pub open spec fn separated(base: Seq<char>) -> bool {
    base.len() == 0 || base.last() == '/' || base.last() == '\\' || base.last() == ':'
}

/// The text of a path is that of a base and a name, with a separator in between where it takes
/// one.
pub open spec fn stands_below(path: Seq<char>, base: Seq<char>, name: Seq<char>) -> bool {
    ||| path == base.push('/') + name
    ||| path == base.push('\\') + name
    ||| separated(base) && path == base + name
}

/// A path ends with a name, and has the text of a base in front of it. A verbatim base is brought
/// into its normal form first, so nothing is said of it.
pub open spec fn joined(path: PathBuf, base: Seq<char>, name: Seq<char>) -> bool {
    &&& name.is_suffix_of(path_text(path))
    &&& !verbatim(base) ==> stands_below(path_text(path), base, name)
}

/// `Path::join` with a plain name, which goes to the end of the path, behind a separator of the
/// platform where the base does not end with one.
#[verifier::external_body]
fn join_name(base: &PathBuf, name: &str) -> (path: PathBuf)
    requires
        plain_name(name@),
    ensures
        joined(path, path_text(*base), name@),
{
    base.join(name)
}

/// `PathBuf::from` a text: the path with that text.
#[verifier::external_body]
pub(crate) fn text_path(text: &str) -> (path: PathBuf)
    ensures
        path_text(path) == text@,
{
    PathBuf::from(text)
}

/// `Path::to_string_lossy`: the text of a path.
#[verifier::external_body]
fn show_path(path: &PathBuf) -> (text: String)
    ensures
        text@ == path_text(*path),
{
    path.to_string_lossy().into_owned()
}

/// `==` on two paths of the standard library, which compares their components; a path has the
/// components of itself.
#[verifier::external_body]
pub(crate) fn same_path(a: &PathBuf, b: &PathBuf) -> (same: bool)
    ensures
        same == same_place(*a, *b),
        *a == *b ==> same,
{
    a == b
}

/// `PathBuf::clone` of the standard library gives the same path.
pub assume_specification[ <std::path::PathBuf as Clone>::clone ](
    path: &std::path::PathBuf,
) -> (copy: std::path::PathBuf)
    ensures
        copy == *path,
;

/// `dirs::data_dir`, which looks at the environment of the user: nothing is promised of it.
#[verifier::external_body]
fn user_data_dir() -> (dir: Option<PathBuf>) {
    dirs::data_dir()
}

/// `dirs::home_dir`, which looks at the environment of the user: nothing is promised of it.
#[verifier::external_body]
fn user_home_dir() -> (dir: Option<PathBuf>) {
    dirs::home_dir()
}

/// The text of the directory for application data, or of the current directory where the user has
/// none.
pub open spec fn data_text(data_dir: Option<PathBuf>) -> Seq<char> {
    match data_dir {
        Some(dir) => path_text(dir),
        None => "."@,
    }
}

/// The application's own directory below a directory for application data.
pub fn app_data_dir_in(data_dir: Option<PathBuf>) -> (dir: PathBuf)
    ensures
        joined(dir, data_text(data_dir), "Codex Quota"@),
{
    proof {
        lemma_plain_names();
    }
    let base: PathBuf = match data_dir {
        Some(dir) => dir,
        None => text_path("."),
    };
    join_name(&base, "Codex Quota")
}

/// The application's own directory. Whatever the environment says, it is below a directory for
/// application data.
pub fn app_data_dir() -> (dir: PathBuf)
    ensures
        exists|data_dir: Option<PathBuf>| #[trigger]
            joined(dir, data_text(data_dir), "Codex Quota"@),
{
    app_data_dir_in(user_data_dir())
}

/// The settings file in the application's directory.
pub fn settings_path_in(dir: &PathBuf) -> (path: PathBuf)
    ensures
        joined(path, path_text(*dir), "settings.json"@),
{
    proof {
        lemma_plain_names();
    }
    join_name(dir, "settings.json")
}

/// The cache file in the application's directory.
pub fn cache_path_in(dir: &PathBuf) -> (path: PathBuf)
    ensures
        joined(path, path_text(*dir), "quota-cache.json"@),
{
    proof {
        lemma_plain_names();
    }
    join_name(dir, "quota-cache.json")
}

/// The diagnostics file in the application's directory.
pub fn diagnostics_path_in(dir: &PathBuf) -> (path: PathBuf)
    ensures
        joined(path, path_text(*dir), "diagnostics.json"@),
{
    proof {
        lemma_plain_names();
    }
    join_name(dir, "diagnostics.json")
}

/// A file of that name in an application directory below a directory for application data.
pub open spec fn own_file(path: PathBuf, name: Seq<char>) -> bool {
    exists|dir: PathBuf, data_dir: Option<PathBuf>| #[trigger]
        joined(dir, data_text(data_dir), "Codex Quota"@) && #[trigger] joined(
            path,
            path_text(dir),
            name,
        )
}

pub fn settings_path() -> (path: PathBuf)
    ensures
        own_file(path, "settings.json"@),
{
    settings_path_in(&app_data_dir())
}

pub fn cache_path() -> (path: PathBuf)
    ensures
        own_file(path, "quota-cache.json"@),
{
    cache_path_in(&app_data_dir())
}

pub fn diagnostics_path() -> (path: PathBuf)
    ensures
        own_file(path, "diagnostics.json"@),
{
    diagnostics_path_in(&app_data_dir())
}

/// The text of the home directory, which is empty where the user has none.
pub open spec fn home_text(home_dir: Option<PathBuf>) -> Seq<char> {
    match home_dir {
        Some(home) => path_text(home),
        None => ""@,
    }
}

/// The place below a home directory where Codex keeps its sessions.
pub open spec fn sessions_below(path: PathBuf, home_dir: Option<PathBuf>) -> bool {
    exists|dir: PathBuf| #[trigger]
        joined(dir, home_text(home_dir), ".codex"@) && joined(path, path_text(dir), "sessions"@)
}

/// Where Codex keeps its sessions below a home directory, unless the settings name a place.
pub fn session_path_in(settings: &AppSettings, home_dir: Option<PathBuf>) -> (path: PathBuf)
    ensures
        match settings.custom_session_path {
            Some(custom) => path_text(path) == custom@,
            None => sessions_below(path, home_dir),
        },
{
    proof {
        lemma_plain_names();
    }
    match &settings.custom_session_path {
        Some(custom) => text_path(custom.as_str()),
        None => {
            let ghost base = home_text(home_dir);
            let home: PathBuf = match home_dir {
                Some(home) => home,
                None => text_path(""),
            };
            let dir: PathBuf = join_name(&home, ".codex");
            assert(joined(dir, base, ".codex"@));
            join_name(&dir, "sessions")
        },
    }
}

/// Where Codex keeps its sessions.
pub fn session_path(settings: &AppSettings) -> (path: PathBuf)
    ensures
        match settings.custom_session_path {
            Some(custom) => path_text(path) == custom@,
            None => exists|home_dir: Option<PathBuf>| #[trigger] sessions_below(path, home_dir),
        },
{
    session_path_in(settings, user_home_dir())
}

/// A path as it is shown to the user.
pub fn path_label(path: &PathBuf) -> (label: String)
    ensures
        label@ == path_text(*path),
{
    show_path(path)
}

/// The directory of an official installation of Codex below the directory for local application
/// data.
pub open spec fn official_root(root: PathBuf, local_app_data: Seq<char>) -> bool {
    exists|vendor: PathBuf, product: PathBuf|
        joined(vendor, local_app_data, "OpenAI"@) && #[trigger] joined(
            product,
            path_text(vendor),
            "Codex"@,
        ) && #[trigger] joined(root, path_text(product), "bin"@)
}

pub fn official_root_in(local_app_data: &PathBuf) -> (root: PathBuf)
    ensures
        official_root(root, path_text(*local_app_data)),
{
    proof {
        lemma_plain_names();
    }
    let vendor: PathBuf = join_name(local_app_data, "OpenAI");
    let product: PathBuf = join_name(&vendor, "Codex");
    let root: PathBuf = join_name(&product, "bin");
    assert(joined(product, path_text(vendor), "Codex"@) && joined(
        root,
        path_text(product),
        "bin"@,
    ));
    root
}

/// The executable of Codex in a directory.
pub fn executable_in(dir: &PathBuf) -> (executable: PathBuf)
    ensures
        joined(executable, path_text(*dir), "codex.exe"@),
{
    proof {
        lemma_plain_names();
    }
    join_name(dir, "codex.exe")
}

/// A standalone executable of Codex below the directory of a user.
pub open spec fn standalone_executable(executable: PathBuf, user_profile: Seq<char>) -> bool {
    exists|own: PathBuf, dir: PathBuf|
        joined(own, user_profile, ".codex"@) && #[trigger] joined(dir, path_text(own), "bin"@)
            && #[trigger] joined(executable, path_text(dir), "codex.exe"@)
}

pub fn standalone_path_in(user_profile: &PathBuf) -> (executable: PathBuf)
    ensures
        standalone_executable(executable, path_text(*user_profile)),
{
    proof {
        lemma_plain_names();
    }
    let own: PathBuf = join_name(user_profile, ".codex");
    let dir: PathBuf = join_name(&own, "bin");
    let executable: PathBuf = executable_in(&dir);
    assert(joined(dir, path_text(own), "bin"@) && joined(
        executable,
        path_text(dir),
        "codex.exe"@,
    ));
    executable
}

/// The files that the application keeps.
#[derive(Clone, Copy, Debug, PartialEq, Eq, Structural)]
pub enum StoredFile {
    Settings,
    Cache,
    Diagnostics,
}

/// What a path has to do with the replacement of a file.
#[derive(Clone, Copy, Debug, PartialEq, Eq, Structural)]
pub enum FileRole {
    /// The file itself.
    Target,
    /// Its new contents, before they take its place.
    Temp,
    /// Its old contents, while they are replaced.
    Backup,
}

/// The name of a file, its temporary file or its backup.
pub open spec fn stored_name(file: StoredFile, role: FileRole) -> Seq<char> {
    match (file, role) {
        (StoredFile::Settings, FileRole::Target) => "settings.json"@,
        (StoredFile::Settings, FileRole::Temp) => "settings.tmp"@,
        (StoredFile::Settings, FileRole::Backup) => "settings.bak"@,
        (StoredFile::Cache, FileRole::Target) => "quota-cache.json"@,
        (StoredFile::Cache, FileRole::Temp) => "quota-cache.tmp"@,
        (StoredFile::Cache, FileRole::Backup) => "quota-cache.bak"@,
        (StoredFile::Diagnostics, FileRole::Target) => "diagnostics.json"@,
        (StoredFile::Diagnostics, FileRole::Temp) => "diagnostics.tmp"@,
        (StoredFile::Diagnostics, FileRole::Backup) => "diagnostics.bak"@,
    }
}

/// The paths that the replacement of a file uses.
#[derive(Debug)]
pub struct FilePaths {
    pub target: PathBuf,
    pub temp: PathBuf,
    pub backup: PathBuf,
}

impl FilePaths {
    /// The paths stand in a directory, under the names for a file.
    pub open spec fn stand_in(self, dir: Seq<char>, file: StoredFile) -> bool {
        &&& joined(self.target, dir, stored_name(file, FileRole::Target))
        &&& joined(self.temp, dir, stored_name(file, FileRole::Temp))
        &&& joined(self.backup, dir, stored_name(file, FileRole::Backup))
    }
}

/// The paths for a file in the application's directory.
pub fn file_paths_in(dir: &PathBuf, file: StoredFile) -> (paths: FilePaths)
    ensures
        paths.stand_in(path_text(*dir), file),
{
    proof {
        lemma_plain_names();
    }
    match file {
        StoredFile::Settings => FilePaths {
            target: settings_path_in(dir),
            temp: join_name(dir, "settings.tmp"),
            backup: join_name(dir, "settings.bak"),
        },
        StoredFile::Cache => FilePaths {
            target: cache_path_in(dir),
            temp: join_name(dir, "quota-cache.tmp"),
            backup: join_name(dir, "quota-cache.bak"),
        },
        StoredFile::Diagnostics => FilePaths {
            target: diagnostics_path_in(dir),
            temp: join_name(dir, "diagnostics.tmp"),
            backup: join_name(dir, "diagnostics.bak"),
        },
    }
}

/// The paths for a file.
pub fn file_paths(file: StoredFile) -> (paths: FilePaths)
    ensures
        exists|dir: PathBuf, data_dir: Option<PathBuf>| #[trigger]
            joined(dir, data_text(data_dir), "Codex Quota"@) && #[trigger] paths.stand_in(
                path_text(dir),
                file,
            ),
{
    let dir: PathBuf = app_data_dir();
    file_paths_in(&dir, file)
}

/// No two of the nine paths for the files of the application are the same, so writing one file
/// never touches another.
pub proof fn law_files_are_distinct(
    a: PathBuf,
    a_dir: Seq<char>,
    a_file: StoredFile,
    a_role: FileRole,
    b: PathBuf,
    b_dir: Seq<char>,
    b_file: StoredFile,
    b_role: FileRole,
)
    requires
        joined(a, a_dir, stored_name(a_file, a_role)),
        joined(b, b_dir, stored_name(b_file, b_role)),
        a_file != b_file || a_role != b_role,
    ensures
        path_text(a) != path_text(b),
{
    lemma_stored_name(a_file, a_role);
    lemma_stored_name(b_file, b_role);
    lemma_end_of_suffix(path_text(a), stored_name(a_file, a_role));
    lemma_end_of_suffix(path_text(b), stored_name(b_file, b_role));
}

/// The text of a path without the name at its end.
pub open spec fn directory_text(path: PathBuf, name: Seq<char>) -> Seq<char> {
    path_text(path).take(path_text(path).len() - name.len())
}

/// A text is that of a directory, with or without a separator at its end.
pub open spec fn is_directory(text: Seq<char>, dir: Seq<char>) -> bool {
    text == dir || text == dir.push('/') || text == dir.push('\\')
}

/// The files of the application, their temporary files and their backups stand directly in one
/// directory.
pub proof fn law_files_share_a_directory(
    path: PathBuf,
    dir: PathBuf,
    file: StoredFile,
    role: FileRole,
)
    requires
        joined(path, path_text(dir), stored_name(file, role)),
        !verbatim(path_text(dir)),
    ensures
        is_directory(directory_text(path, stored_name(file, role)), path_text(dir)),
{
    let base = path_text(dir);
    let name = stored_name(file, role);
    let front = directory_text(path, name);
    if path_text(path) == base.push('/') + name {
        assert(front =~= base.push('/'));
    } else if path_text(path) == base.push('\\') + name {
        assert(front =~= base.push('\\'));
    } else {
        assert(front =~= base);
    }
}

proof fn lemma_end_of_suffix(text: Seq<char>, name: Seq<char>)
    requires
        name.is_suffix_of(text),
        name.len() >= 7,
    ensures
        text.len() >= name.len(),
        text.last() == name.last(),
        text[text.len() - 6] == name[name.len() - 6],
        text[text.len() - 7] == name[name.len() - 7],
{
    let end = text.subrange(text.len() - name.len(), text.len() as int);
    assert(end == name);
    assert(text.last() == end[name.len() - 1]);
    assert(text[text.len() - 6] == end[name.len() - 6]);
    assert(text[text.len() - 7] == end[name.len() - 7]);
}

/// The last letter of a name tells the role, the last but one before the dot the file.
proof fn lemma_stored_name(file: StoredFile, role: FileRole)
    ensures
        ({
            let name = stored_name(file, role);
            let at = name.len() - (if role == FileRole::Target {
                7int
            } else {
                6int
            });
            &&& name.len() >= 7
            &&& name.last() == match role {
                FileRole::Target => 'n',
                FileRole::Temp => 'p',
                FileRole::Backup => 'k',
            }
            &&& name[at] == match file {
                StoredFile::Settings => 'g',
                StoredFile::Cache => 'h',
                StoredFile::Diagnostics => 'c',
            }
        }),
{
    reveal_strlit("settings.json");
    reveal_strlit("settings.tmp");
    reveal_strlit("settings.bak");
    reveal_strlit("quota-cache.json");
    reveal_strlit("quota-cache.tmp");
    reveal_strlit("quota-cache.bak");
    reveal_strlit("diagnostics.json");
    reveal_strlit("diagnostics.tmp");
    reveal_strlit("diagnostics.bak");
}

proof fn lemma_plain_name(name: Seq<char>)
    requires
        name.len() > 2,
        forall|i: int|
            0 <= i < name.len() ==> (#[trigger] name[i]) != '/' && name[i] != '\\' && name[i] != ':',
    ensures
        plain_name(name),
{
    reveal_strlit(".");
    reveal_strlit("..");
}

proof fn lemma_plain_names()
    ensures
        plain_name("Codex Quota"@),
        plain_name("settings.json"@),
        plain_name("settings.tmp"@),
        plain_name("settings.bak"@),
        plain_name("quota-cache.json"@),
        plain_name("quota-cache.tmp"@),
        plain_name("quota-cache.bak"@),
        plain_name("diagnostics.json"@),
        plain_name("diagnostics.tmp"@),
        plain_name("diagnostics.bak"@),
        plain_name(".codex"@),
        plain_name("sessions"@),
        plain_name("OpenAI"@),
        plain_name("Codex"@),
        plain_name("bin"@),
        plain_name("codex.exe"@),
{
    reveal_strlit("Codex Quota");
    lemma_plain_name("Codex Quota"@);
    reveal_strlit("settings.json");
    lemma_plain_name("settings.json"@);
    reveal_strlit("settings.tmp");
    lemma_plain_name("settings.tmp"@);
    reveal_strlit("settings.bak");
    lemma_plain_name("settings.bak"@);
    reveal_strlit("quota-cache.json");
    lemma_plain_name("quota-cache.json"@);
    reveal_strlit("quota-cache.tmp");
    lemma_plain_name("quota-cache.tmp"@);
    reveal_strlit("quota-cache.bak");
    lemma_plain_name("quota-cache.bak"@);
    reveal_strlit("diagnostics.json");
    lemma_plain_name("diagnostics.json"@);
    reveal_strlit("diagnostics.tmp");
    lemma_plain_name("diagnostics.tmp"@);
    reveal_strlit("diagnostics.bak");
    lemma_plain_name("diagnostics.bak"@);
    reveal_strlit(".codex");
    lemma_plain_name(".codex"@);
    reveal_strlit("sessions");
    lemma_plain_name("sessions"@);
    reveal_strlit("OpenAI");
    lemma_plain_name("OpenAI"@);
    reveal_strlit("Codex");
    lemma_plain_name("Codex"@);
    reveal_strlit("bin");
    lemma_plain_name("bin"@);
    reveal_strlit("codex.exe");
    lemma_plain_name("codex.exe"@);
}

/// A temporary file and a backup have the name of their file with another extension.
pub proof fn law_siblings_differ_in_the_extension(file: StoredFile)
    ensures
        exists|stem: Seq<char>|
            stored_name(file, FileRole::Target) == #[trigger] (stem + ".json"@) && stored_name(
                file,
                FileRole::Temp,
            ) == stem + ".tmp"@ && stored_name(file, FileRole::Backup) == stem + ".bak"@,
        stored_name(StoredFile::Settings, FileRole::Target) == "settings.json"@,
        stored_name(StoredFile::Cache, FileRole::Target) == "quota-cache.json"@,
        stored_name(StoredFile::Diagnostics, FileRole::Target) == "diagnostics.json"@,
{
    reveal_strlit(".json");
    reveal_strlit(".tmp");
    reveal_strlit(".bak");
    reveal_strlit("settings.json");
    reveal_strlit("settings.tmp");
    reveal_strlit("settings.bak");
    reveal_strlit("quota-cache.json");
    reveal_strlit("quota-cache.tmp");
    reveal_strlit("quota-cache.bak");
    reveal_strlit("diagnostics.json");
    reveal_strlit("diagnostics.tmp");
    reveal_strlit("diagnostics.bak");
    let name = stored_name(file, FileRole::Target);
    let stem = name.take(name.len() - 5);
    assert(name =~= stem + ".json"@);
    assert(stored_name(file, FileRole::Temp) =~= stem + ".tmp"@);
    assert(stored_name(file, FileRole::Backup) =~= stem + ".bak"@);
}

/// Without a directory for application data the current one is used, and without a home directory
/// none.
pub proof fn law_missing_directories(dir: PathBuf)
    ensures
        data_text(None) == "."@,
        data_text(Some(dir)) == path_text(dir),
        home_text(None) == ""@,
        home_text(Some(dir)) == path_text(dir),
{
}

/// A text that stands between two parts of a path: a separator, or nothing where the first part
/// ends with one.
pub open spec fn between(before: Seq<char>, gap: Seq<char>) -> bool {
    ||| gap == seq!['/']
    ||| gap == seq!['\\']
    ||| gap.len() == 0 && (before.len() == 0 || before.last() == '/' || before.last() == '\\'
        || before.last() == ':')
}

/// A directory below which names stand as they are: neither a verbatim one nor one that a name
/// would make verbatim.
pub open spec fn plain_base(base: Seq<char>) -> bool {
    !verbatim(base) && base != r"\\?"@
}

proof fn lemma_gap(path: PathBuf, base: Seq<char>, name: Seq<char>) -> (gap: Seq<char>)
    requires
        joined(path, base, name),
        plain_base(base),
    ensures
        between(base, gap),
        path_text(path) == base + gap + name,
{
    if path_text(path) == base.push('/') + name {
        assert(path_text(path) =~= base + seq!['/'] + name);
        seq!['/']
    } else if path_text(path) == base.push('\\') + name {
        assert(path_text(path) =~= base + seq!['\\'] + name);
        seq!['\\']
    } else {
        assert(path_text(path) =~= base + Seq::<char>::empty() + name);
        Seq::empty()
    }
}

proof fn lemma_stays_plain(base: Seq<char>, gap: Seq<char>, name: Seq<char>)
    requires
        plain_base(base),
        between(base, gap),
        name.len() > 0,
        name[0] != '\\',
        name[0] != '?',
        name.last() != '?',
    ensures
        plain_base(base + gap + name),
{
    let path = base + gap + name;
    reveal_strlit(r"\\?\");
    reveal_strlit(r"\\?");
    assert(path.last() == name.last());
    if verbatim(path) {
        let start = r"\\?\"@;
        assert(forall|i: int| 0 <= i < 4 ==> path[i] == start[i]);
        if base.len() >= 4 {
            assert(base.subrange(0, 4) =~= start);
        } else if base.len() == 3 {
            assert forall|i: int| 0 <= i < 3 implies base[i] == r"\\?"@[i] by {
                assert(base[i] == path[i]);
                assert(start[i] == r"\\?"@[i]);
            }
            assert(base =~= r"\\?"@);
        } else {
            let at = (base.len() + gap.len()) as int;
            assert(path[at] == name[0]);
            assert(start[at] == '\\' || start[at] == '?');
        }
        assert(false);
    }
}

/// The session records stand in `.codex` and `sessions` below the home directory.
pub proof fn law_where_sessions_are_kept(path: PathBuf, home_dir: Option<PathBuf>)
    requires
        sessions_below(path, home_dir),
        plain_base(home_text(home_dir)),
    ensures
        exists|a: Seq<char>, b: Seq<char>|
            #![trigger between(home_text(home_dir), a), between(home_text(home_dir) + a + ".codex"@, b)]
            between(home_text(home_dir), a) && between(home_text(home_dir) + a + ".codex"@, b)
                && path_text(path) == home_text(home_dir) + a + ".codex"@ + b + "sessions"@,
{
    reveal_strlit(".codex");
    let home = home_text(home_dir);
    let dir = choose|dir: PathBuf| #[trigger]
        joined(dir, home, ".codex"@) && joined(path, path_text(dir), "sessions"@);
    let a = lemma_gap(dir, home, ".codex"@);
    lemma_stays_plain(home, a, ".codex"@);
    let b = lemma_gap(path, path_text(dir), "sessions"@);
    assert(between(home, a) && between(home + a + ".codex"@, b));
}

/// A file of the application stands in `Codex Quota` below the directory for application data.
pub proof fn law_where_own_files_are_kept(
    path: PathBuf,
    dir: PathBuf,
    data_dir: Option<PathBuf>,
    name: Seq<char>,
)
    requires
        joined(dir, data_text(data_dir), "Codex Quota"@),
        joined(path, path_text(dir), name),
        plain_base(data_text(data_dir)),
    ensures
        own_file(path, name),
        exists|a: Seq<char>, b: Seq<char>|
            #![trigger between(data_text(data_dir), a), between(data_text(data_dir) + a + "Codex Quota"@, b)]
            between(data_text(data_dir), a) && between(data_text(data_dir) + a + "Codex Quota"@, b)
                && path_text(path) == data_text(data_dir) + a + "Codex Quota"@ + b + name,
{
    reveal_strlit("Codex Quota");
    let data = data_text(data_dir);
    let a = lemma_gap(dir, data, "Codex Quota"@);
    lemma_stays_plain(data, a, "Codex Quota"@);
    let b = lemma_gap(path, path_text(dir), name);
    assert(between(data, a) && between(data + a + "Codex Quota"@, b));
}

/// A file of the application ends with its own name, in a directory that ends with that of the
/// application.
pub proof fn law_own_files_are_named(path: PathBuf, name: Seq<char>)
    requires
        own_file(path, name),
    ensures
        name.is_suffix_of(path_text(path)),
        exists|dir: PathBuf| "Codex Quota"@.is_suffix_of(path_text(dir)) && #[trigger] joined(
            path,
            path_text(dir),
            name,
        ),
{
}

/// The official installation stands in `OpenAI`, `Codex` and `bin` below the local application data.
pub proof fn law_where_the_official_installation_is(root: PathBuf, local: Seq<char>)
    requires
        official_root(root, local),
        plain_base(local),
    ensures
        exists|a: Seq<char>, b: Seq<char>, c: Seq<char>|
            #![trigger between(local, a), between(local + a + "OpenAI"@, b), between(local + a + "OpenAI"@ + b + "Codex"@, c)]
            between(local, a) && between(local + a + "OpenAI"@, b) && between(
                local + a + "OpenAI"@ + b + "Codex"@,
                c,
            ) && path_text(root) == local + a + "OpenAI"@ + b + "Codex"@ + c + "bin"@,
{
    reveal_strlit("OpenAI");
    reveal_strlit("Codex");
    let (vendor, product) = choose|vendor: PathBuf, product: PathBuf|
        joined(vendor, local, "OpenAI"@) && #[trigger] joined(product, path_text(vendor), "Codex"@)
            && #[trigger] joined(root, path_text(product), "bin"@);
    let a = lemma_gap(vendor, local, "OpenAI"@);
    lemma_stays_plain(local, a, "OpenAI"@);
    let b = lemma_gap(product, path_text(vendor), "Codex"@);
    lemma_stays_plain(path_text(vendor), b, "Codex"@);
    let c = lemma_gap(root, path_text(product), "bin"@);
    assert(between(local, a) && between(local + a + "OpenAI"@, b) && between(
        local + a + "OpenAI"@ + b + "Codex"@,
        c,
    ));
}

/// The standalone executable is `codex.exe` in `.codex` and `bin` below the user's profile.
pub proof fn law_where_the_standalone_executable_is(executable: PathBuf, profile: Seq<char>)
    requires
        standalone_executable(executable, profile),
        plain_base(profile),
    ensures
        exists|a: Seq<char>, b: Seq<char>, c: Seq<char>|
            #![trigger between(profile, a), between(profile + a + ".codex"@, b), between(profile + a + ".codex"@ + b + "bin"@, c)]
            between(profile, a) && between(profile + a + ".codex"@, b) && between(
                profile + a + ".codex"@ + b + "bin"@,
                c,
            ) && path_text(executable) == profile + a + ".codex"@ + b + "bin"@ + c + "codex.exe"@,
{
    reveal_strlit(".codex");
    reveal_strlit("bin");
    let (own, dir) = choose|own: PathBuf, dir: PathBuf|
        joined(own, profile, ".codex"@) && #[trigger] joined(dir, path_text(own), "bin"@)
            && #[trigger] joined(executable, path_text(dir), "codex.exe"@);
    let a = lemma_gap(own, profile, ".codex"@);
    lemma_stays_plain(profile, a, ".codex"@);
    let b = lemma_gap(dir, path_text(own), "bin"@);
    lemma_stays_plain(path_text(own), b, "bin"@);
    let c = lemma_gap(executable, path_text(dir), "codex.exe"@);
    assert(between(profile, a) && between(profile + a + ".codex"@, b) && between(
        profile + a + ".codex"@ + b + "bin"@,
        c,
    ));
}

} // verus!
