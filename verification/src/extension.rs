//! Where the editor extension finds the language server: the names of the
//! binary and its release asset, the places an install may hold it, and the
//! order in which those places are tried.
use vstd::prelude::*;
use crate::item::{lemma_select_step, select};
use crate::schema::texts;
use crate::text::{chars_of, owned, same_text, string_of};

verus! {

/// Operating systems the editor runs on.
#[derive(PartialEq, Eq, Structural, Clone, Copy, Debug)]
pub enum Os {
    Mac,
    Linux,
    Windows,
}

/// Processor architectures the editor runs on.
#[derive(PartialEq, Eq, Structural, Clone, Copy, Debug)]
pub enum Architecture {
    Aarch64,
    X86,
    X8664,
}

/// The file name of the server binary on an operating system.
pub open spec fn binary_name_of(os: Os) -> Seq<char> {
    match os {
        Os::Windows => "ghostty-lsp.exe"@,
        _ => "ghostty-lsp"@,
    }
}

/// `s` ends with `suffix`.
pub open spec fn has_suffix(s: Seq<char>, suffix: Seq<char>) -> bool {
    suffix.len() <= s.len() && s.subrange(s.len() - suffix.len(), s.len() as int) == suffix
}

/// `s` starts with `prefix`.
pub open spec fn has_prefix(s: Seq<char>, prefix: Seq<char>) -> bool {
    prefix.len() <= s.len() && s.take(prefix.len() as int) == prefix
}

/// A binary name without its `.exe` extension.
pub open spec fn stem_of(name: Seq<char>) -> Seq<char> {
    if has_suffix(name, ".exe"@) {
        name.take(name.len() - ".exe"@.len())
    } else {
        name
    }
}

/// Two path parts joined with `/`.
pub open spec fn path2(a: Seq<char>, b: Seq<char>) -> Seq<char> {
    a + "/"@ + b
}

/// The places, in the extension's working directory, where an earlier
/// install may have left the binary, in the order they are tried.
pub open spec fn existing_candidates(name: Seq<char>, stem: Seq<char>) -> Seq<Seq<char>> {
    seq![name, path2(stem, name), path2(name, name), path2(path2(name, stem), name)]
}

/// The places inside a release's directory where the extracted binary may
/// be, in the order they are tried.
pub open spec fn version_dir_candidates_of(
    dir: Seq<char>,
    name: Seq<char>,
    stem: Seq<char>,
) -> Seq<Seq<char>> {
    seq![path2(dir, name), path2(path2(dir, stem), name), path2(path2(dir, name), name)]
}

/// The operating system's name in release asset names.
pub open spec fn os_name_of(os: Os) -> Seq<char> {
    match os {
        Os::Mac => "darwin"@,
        Os::Linux => "linux"@,
        Os::Windows => "windows"@,
    }
}

/// The architecture's name in release asset names; there is no release for
/// 32-bit x86.
pub open spec fn arch_name_of(arch: Architecture) -> Result<Seq<char>, Seq<char>> {
    match arch {
        Architecture::Aarch64 => Ok("aarch64"@),
        Architecture::X8664 => Ok("x86_64"@),
        Architecture::X86 => Err("Unsupported architecture"@),
    }
}

/// The name of the release asset for a platform.
pub open spec fn asset_name_of(os_name: Seq<char>, arch_name: Seq<char>) -> Seq<char> {
    "ghostty-lsp-"@ + os_name + "-"@ + arch_name + ".tar.gz"@
}

/// The directory that holds one release.
pub open spec fn version_dir_of(version: Seq<char>) -> Seq<char> {
    "ghostty-lsp-"@ + version
}

/// `i` is the index of the first asset named `wanted`.
pub open spec fn first_named(names: Seq<Seq<char>>, wanted: Seq<char>, i: int) -> bool {
    &&& 0 <= i < names.len()
    &&& names[i] == wanted
    &&& forall|j: int| 0 <= j < i ==> names[j] != wanted
}

/// The message for a release without an asset for this platform.
pub open spec fn no_asset_message(wanted: Seq<char>) -> Seq<char> {
    "No asset found for "@ + wanted
}

/// The message for a download in which the binary was not found.
pub open spec fn missing_binary_message_of(asset: Seq<char>, dir: Seq<char>) -> Seq<char> {
    "Downloaded "@ + asset + ", but couldn't find extracted binary inside "@ + dir
}

/// A directory entry is an older release's directory: it is not the current
/// release's and its name starts with `ghostty-lsp-`.
pub open spec fn stale_install(name: Seq<char>, version_dir: Seq<char>) -> bool {
    name != version_dir && has_prefix(name, "ghostty-lsp-"@)
}

/// `i` is the index of the first `GHOSTTY_LSP_PATH` variable.
pub open spec fn first_var(env: Seq<(String, String)>, i: int) -> bool {
    &&& 0 <= i < env.len()
    &&& env[i].0@ == "GHOSTTY_LSP_PATH"@
    &&& forall|j: int| 0 <= j < i ==> env[j].0@ != "GHOSTTY_LSP_PATH"@
}

/// The file name of the server binary on an operating system.
pub fn binary_name(os: Os) -> (r: &'static str)
    ensures
        r@ == binary_name_of(os),
{
    match os {
        Os::Windows => "ghostty-lsp.exe",
        _ => "ghostty-lsp",
    }
}

/// Whether `s` ends with `suffix`.
fn ends_with(s: &[char], suffix: &[char]) -> (r: bool)
    ensures
        r == has_suffix(s@, suffix@),
{
    if suffix.len() > s.len() {
        return false;
    }
    let off = s.len() - suffix.len();
    let mut k: usize = 0;
    while k < suffix.len()
        invariant
            off + suffix@.len() == s@.len(),
            s@.len() == s.len(),
            k <= suffix@.len(),
            forall|t: int| 0 <= t < k ==> s@[off + t] == suffix@[t],
        decreases suffix@.len() - k,
    {
        if s[off + k] != suffix[k] {
            assert(s@.subrange(off as int, s@.len() as int)[k as int] != suffix@[k as int]);
            return false;
        }
        k = k + 1;
    }
    assert(s@.subrange(off as int, s@.len() as int) =~= suffix@);
    true
}

/// Whether `s` starts with `prefix`.
fn starts_with(s: &[char], prefix: &[char]) -> (r: bool)
    ensures
        r == has_prefix(s@, prefix@),
{
    if prefix.len() > s.len() {
        return false;
    }
    let mut k: usize = 0;
    while k < prefix.len()
        invariant
            prefix@.len() <= s@.len(),
            k <= prefix@.len(),
            forall|t: int| 0 <= t < k ==> s@[t] == prefix@[t],
        decreases prefix@.len() - k,
    {
        if s[k] != prefix[k] {
            assert(s@.take(prefix@.len() as int)[k as int] != prefix@[k as int]);
            return false;
        }
        k = k + 1;
    }
    assert(s@.take(prefix@.len() as int) =~= prefix@);
    true
}

/// A binary name without its `.exe` extension.
pub fn binary_stem(name: &str) -> (r: String)
    ensures
        r@ == stem_of(name@),
{
    let v = chars_of(name);
    let ext = chars_of(".exe");
    if ends_with(&v, &ext) {
        string_of(&v, 0, v.len() - ext.len())
    } else {
        assert(v@.subrange(0, v@.len() as int) =~= v@);
        string_of(&v, 0, v.len())
    }
}

/// Two path parts joined with `/`.
fn join_path(a: &str, b: &str) -> (r: String)
    ensures
        r@ == path2(a@, b@),
{
    let mut r = owned(a);
    r.append("/");
    r.append(b);
    r
}

/// The places where an earlier install may have left the binary, in the
/// order they are tried.
pub fn existing_binary_candidates(name: &str, stem: &str) -> (r: Vec<String>)
    ensures
        texts(r@) == existing_candidates(name@, stem@),
{
    let mut r: Vec<String> = Vec::new();
    r.push(owned(name));
    r.push(join_path(stem, name));
    r.push(join_path(name, name));
    let inner = join_path(name, stem);
    r.push(join_path(inner.as_str(), name));
    assert(texts(r@) =~= existing_candidates(name@, stem@));
    r
}

/// The places inside a release's directory where the extracted binary may
/// be, in the order they are tried.
pub fn version_dir_candidates(dir: &str, name: &str, stem: &str) -> (r: Vec<String>)
    ensures
        texts(r@) == version_dir_candidates_of(dir@, name@, stem@),
{
    let mut r: Vec<String> = Vec::new();
    r.push(join_path(dir, name));
    let a = join_path(dir, stem);
    r.push(join_path(a.as_str(), name));
    let b = join_path(dir, name);
    r.push(join_path(b.as_str(), name));
    assert(texts(r@) =~= version_dir_candidates_of(dir@, name@, stem@));
    r
}

/// The operating system's name in release asset names.
pub fn os_name(os: Os) -> (r: &'static str)
    ensures
        r@ == os_name_of(os),
{
    match os {
        Os::Mac => "darwin",
        Os::Linux => "linux",
        Os::Windows => "windows",
    }
}

/// The architecture's name in release asset names, or the error for 32-bit
/// x86, for which there is no release.
pub fn arch_name(arch: Architecture) -> (r: Result<&'static str, String>)
    ensures
        match r {
            Ok(s) => arch_name_of(arch) == Ok::<Seq<char>, Seq<char>>(s@),
            Err(e) => arch_name_of(arch) == Err::<Seq<char>, Seq<char>>(e@),
        },
{
    match arch {
        Architecture::Aarch64 => Ok("aarch64"),
        Architecture::X8664 => Ok("x86_64"),
        Architecture::X86 => Err(owned("Unsupported architecture")),
    }
}

/// The name of the release asset for a platform.
pub fn asset_name(os_name: &str, arch_name: &str) -> (r: String)
    ensures
        r@ == asset_name_of(os_name@, arch_name@),
{
    let mut r = owned("ghostty-lsp-");
    r.append(os_name);
    r.append("-");
    r.append(arch_name);
    r.append(".tar.gz");
    r
}

/// The directory that holds one release.
pub fn version_dir(version: &str) -> (r: String)
    ensures
        r@ == version_dir_of(version@),
{
    let mut r = owned("ghostty-lsp-");
    r.append(version);
    r
}

/// The index of the first asset named `wanted`, or the error naming it.
pub fn find_asset(names: &Vec<String>, wanted: &str) -> (r: Result<usize, String>)
    ensures
        match r {
            Ok(i) => first_named(texts(names@), wanted@, i as int),
            Err(e) => e@ == no_asset_message(wanted@) && forall|j: int|
                0 <= j < names@.len() ==> names@[j]@ != wanted@,
        },
{
    let mut i: usize = 0;
    while i < names.len()
        invariant
            i <= names@.len(),
            forall|j: int| 0 <= j < i ==> names@[j]@ != wanted@,
        decreases names@.len() - i,
    {
        if same_text(names[i].as_str(), wanted) {
            return Ok(i);
        }
        i = i + 1;
    }
    let mut e = owned("No asset found for ");
    e.append(wanted);
    Err(e)
}

/// The message for a download in which the binary was not found.
pub fn missing_binary_message(asset: &str, dir: &str) -> (r: String)
    ensures
        r@ == missing_binary_message_of(asset@, dir@),
{
    let mut r = owned("Downloaded ");
    r.append(asset);
    r.append(", but couldn't find extracted binary inside ");
    r.append(dir);
    r
}

/// Whether a directory entry is an older release's directory, to be removed
/// once a new release is in place.
pub fn is_stale_install(name: &str, version_dir: &str) -> (r: bool)
    ensures
        r == stale_install(name@, version_dir@),
{
    if same_text(name, version_dir) {
        return false;
    }
    let v = chars_of(name);
    let p = chars_of("ghostty-lsp-");
    starts_with(&v, &p)
}

/// The server path that the user set in `GHOSTTY_LSP_PATH`, from the first
/// such variable of the environment.
pub fn custom_server_path(env: &Vec<(String, String)>) -> (r: Option<String>)
    ensures
        match r {
            Some(p) => exists|i: int| first_var(env@, i) && #[trigger] env@[i].1@ == p@,
            None => forall|j: int| 0 <= j < env@.len() ==> env@[j].0@ != "GHOSTTY_LSP_PATH"@,
        },
{
    let mut i: usize = 0;
    while i < env.len()
        invariant
            i <= env@.len(),
            forall|j: int| 0 <= j < i ==> env@[j].0@ != "GHOSTTY_LSP_PATH"@,
        decreases env@.len() - i,
    {
        if same_text(env[i].0.as_str(), "GHOSTTY_LSP_PATH") {
            let p = owned(env[i].1.as_str());
            assert(first_var(env@, i as int));
            return Some(p);
        }
        i = i + 1;
    }
    None
}

/// What the extension does next to find the server binary.
pub enum LocateStep {
    /// Use this path.
    Use(String),
    /// Look for a binary that an earlier install left behind.
    ProbeExisting,
    /// Download the latest release.
    Download,
}

/// The mathematical counterpart of [`LocateStep`].
pub enum LocateStepView {
    Use(Seq<char>),
    ProbeExisting,
    Download,
}

impl View for LocateStep {
    type V = LocateStepView;

    open spec fn view(&self) -> LocateStepView {
        match self {
            LocateStep::Use(p) => LocateStepView::Use(p@),
            LocateStep::ProbeExisting => LocateStepView::ProbeExisting,
            LocateStep::Download => LocateStepView::Download,
        }
    }
}

/// The binary path found once, kept for later requests.
pub struct BinaryLocator {
    pub cached: Option<String>,
}

impl BinaryLocator {
    /// A locator that has found nothing yet.
    pub fn new() -> (l: BinaryLocator)
        ensures
            l.cached is None,
    {
        BinaryLocator { cached: None }
    }

    /// The first step: the kept path where there is one, else a look for an
    /// earlier install.
    pub fn start(&self) -> (step: LocateStep)
        ensures
            match self.cached {
                Some(p) => step@ == LocateStepView::Use(p@),
                None => step@ == LocateStepView::ProbeExisting,
            },
    {
        match &self.cached {
            Some(p) => LocateStep::Use(owned(p.as_str())),
            None => LocateStep::ProbeExisting,
        }
    }

    /// After the look for an earlier install: a found binary is kept and
    /// used; else the release is downloaded.
    pub fn after_probe(&mut self, found: Option<String>) -> (step: LocateStep)
        ensures
            match found {
                Some(p) => step@ == LocateStepView::Use(p@) && final(self).cached == Some(p),
                None => step@ == LocateStepView::Download && final(self).cached == old(
                    self,
                ).cached,
            },
    {
        match found {
            Some(p) => {
                let used = owned(p.as_str());
                self.cached = Some(p);
                LocateStep::Use(used)
            },
            None => LocateStep::Download,
        }
    }

    /// After the download: a downloaded binary is kept and used; where the
    /// download failed, the bare binary name is used (for the editor to look
    /// up in `PATH`) and nothing is kept.
    pub fn after_download(&mut self, downloaded: Result<String, String>, name: &str) -> (path:
        String)
        ensures
            match downloaded {
                Ok(p) => path@ == p@ && final(self).cached == Some(p),
                Err(_) => path@ == name@ && final(self).cached == old(self).cached,
            },
    {
        match downloaded {
            Ok(p) => {
                let used = owned(p.as_str());
                self.cached = Some(p);
                used
            },
            Err(_) => owned(name),
        }
    }
}

/// `i` is the first of the first `n` candidates that is present.
pub open spec fn first_present_at(present: Seq<bool>, n: int, i: int) -> bool {
    &&& 0 <= i < n
    &&& present[i]
    &&& forall|j: int| 0 <= j < i ==> !present[j]
}

/// The number of candidates whose presence is known.
pub open spec fn known(candidates: Seq<String>, present: Seq<bool>) -> int {
    if candidates.len() <= present.len() {
        candidates.len() as int
    } else {
        present.len() as int
    }
}

/// The first candidate that is present (`present[i]` tells whether
/// `candidates[i]` exists as a file), in the order the candidates are tried.
pub fn first_present(candidates: &Vec<String>, present: &Vec<bool>) -> (r: Option<String>)
    ensures
        match r {
            Some(p) => exists|i: int|
                first_present_at(present@, known(candidates@, present@), i)
                    && #[trigger] candidates@[i]@ == p@,
            None => forall|j: int|
                0 <= j < known(candidates@, present@) ==> !#[trigger] present@[j],
        },
{
    let n = if candidates.len() <= present.len() {
        candidates.len()
    } else {
        present.len()
    };
    let mut i: usize = 0;
    while i < n
        invariant
            i <= n,
            n == known(candidates@, present@),
            forall|j: int| 0 <= j < i ==> !#[trigger] present@[j],
        decreases n - i,
    {
        if present[i] {
            let p = owned(candidates[i].as_str());
            assert(first_present_at(present@, n as int, i as int));
            return Some(p);
        }
        i = i + 1;
    }
    None
}

/// What the download does next.
pub enum DownloadStep {
    /// Make the binary at this path executable and use it; where
    /// `remove_stale` holds, then remove the older releases' directories.
    MakeExecutable { path: String, remove_stale: bool },
    /// Download and extract the release asset into the release's directory.
    Download,
    /// Give up with this message.
    Fail(String),
}

/// The mathematical counterpart of [`DownloadStep`].
pub enum DownloadStepView {
    MakeExecutable { path: Seq<char>, remove_stale: bool },
    Download,
    Fail(Seq<char>),
}

impl View for DownloadStep {
    type V = DownloadStepView;

    open spec fn view(&self) -> DownloadStepView {
        match self {
            DownloadStep::MakeExecutable { path, remove_stale } => DownloadStepView::MakeExecutable {
                path: path@,
                remove_stale: *remove_stale,
            },
            DownloadStep::Download => DownloadStepView::Download,
            DownloadStep::Fail(m) => DownloadStepView::Fail(m@),
        }
    }
}

/// After looking in the release's directory before downloading: a binary
/// already extracted there is used (with nothing removed); else the asset is
/// downloaded.
pub fn after_extracted_probe(found: Option<String>) -> (step: DownloadStep)
    ensures
        match found {
            Some(p) => step@ == DownloadStepView::MakeExecutable { path: p@, remove_stale: false },
            None => step@ == DownloadStepView::Download,
        },
{
    match found {
        Some(p) => DownloadStep::MakeExecutable { path: p, remove_stale: false },
        None => DownloadStep::Download,
    }
}

/// After looking in the release's directory once the asset is extracted: the
/// binary found is used and the older releases are removed; where none is
/// found, the download fails with the message naming the asset and the
/// directory.
pub fn after_download_probe(found: Option<String>, asset: &str, dir: &str) -> (step: DownloadStep)
    ensures
        match found {
            Some(p) => step@ == DownloadStepView::MakeExecutable { path: p@, remove_stale: true },
            None => step@ == DownloadStepView::Fail(missing_binary_message_of(asset@, dir@)),
        },
{
    match found {
        Some(p) => DownloadStep::MakeExecutable { path: p, remove_stale: true },
        None => DownloadStep::Fail(missing_binary_message(asset, dir)),
    }
}

/// The directory entries to remove once a release is in place: the older
/// releases' directories, in the order they are listed.
pub fn stale_installs(entries: &Vec<String>, version_dir: &str) -> (r: Vec<String>)
    ensures
        texts(r@) == select(
            texts(entries@),
            |n: Seq<char>| stale_install(n, version_dir@),
            |n: Seq<char>| n,
        ),
{
    let ghost names = texts(entries@);
    let ghost keep = |n: Seq<char>| stale_install(n, version_dir@);
    let ghost make = |n: Seq<char>| n;
    let mut r: Vec<String> = Vec::new();
    let mut i: usize = 0;
    assert(names.take(0) =~= Seq::<Seq<char>>::empty());
    while i < entries.len()
        invariant
            i <= entries@.len(),
            names == texts(entries@),
            keep == (|n: Seq<char>| stale_install(n, version_dir@)),
            make == (|n: Seq<char>| n),
            texts(r@) == select(names.take(i as int), keep, make),
        decreases entries@.len() - i,
    {
        proof {
            lemma_select_step(names, i as int, keep, make);
        }
        if is_stale_install(entries[i].as_str(), version_dir) {
            let ghost prev = r@;
            let n = owned(entries[i].as_str());
            r.push(n);
            assert(texts(r@) =~= texts(prev).push(names[i as int]));
        }
        i = i + 1;
    }
    assert(names.take(names.len() as int) =~= names);
    r
}

} // verus!
